use string_ops::path::{file_name, parent_name};
use string_ops::MyTraitForStringSlice;

#[test]
fn file_name_of_absolute_path() {
    assert_eq!("/a/b/c.txt".get_file_name(), "c.txt");
    assert_eq!(file_name("/a/b/c.txt"), Some("c.txt"));
}

#[test]
fn parent_of_absolute_path() {
    assert_eq!("/a/b/c.txt".get_folder_name(), "/a/b");
}

#[test]
fn parent_of_bare_name_is_empty() {
    assert_eq!("c.txt".get_folder_name(), "");
    assert_eq!(parent_name("c.txt"), "");
}

#[test]
fn file_name_is_missing_for_root_empty_and_dots() {
    assert_eq!(file_name("/"), None);
    assert_eq!(file_name(""), None);
    assert_eq!(file_name("."), None);
    assert_eq!(file_name(".."), None);
    assert_eq!(file_name("a/.."), None);
    assert_eq!(file_name("//"), None);
}

#[test]
fn file_name_skips_trailing_separators_and_dots() {
    assert_eq!(file_name("/usr/bin/"), Some("bin"));
    assert_eq!(file_name("foo.txt/."), Some("foo.txt"));
    assert_eq!(file_name("foo.txt/.//"), Some("foo.txt"));
    assert_eq!(file_name("tmp/foo.txt"), Some("foo.txt"));
    assert_eq!(file_name("./x"), Some("x"));
    assert_eq!(file_name(".x"), Some(".x"));
    assert_eq!(file_name("..."), Some("..."));
}

#[test]
fn parent_drops_separators_before_the_last_component() {
    assert_eq!(parent_name("/a"), "/");
    assert_eq!(parent_name("/a//b"), "/a");
    assert_eq!(parent_name("a/./b/"), "a");
    assert_eq!(parent_name("./a"), ".");
    assert_eq!(parent_name("a/.."), "a");
    assert_eq!(parent_name("/"), "");
    assert_eq!(parent_name(""), "");
    assert_eq!(parent_name("."), "");
    assert_eq!(parent_name(".."), "");
}

#[test]
fn parts_of_a_path_with_wide_characters() {
    assert_eq!(file_name("/dönër/naïve—名前.txt"), Some("naïve—名前.txt"));
    assert_eq!(parent_name("/dönër/naïve—名前.txt"), "/dönër");
}

fn every_path(alphabet: &[char], len: usize) -> Vec<String> {
    let mut all = vec![String::new()];
    let mut last = vec![String::new()];
    for _ in 0..len {
        let mut next = Vec::new();
        for s in &last {
            for c in alphabet {
                let mut t = s.clone();
                t.push(*c);
                next.push(t);
            }
        }
        all.extend(next.iter().cloned());
        last = next;
    }
    all
}

#[test]
fn parts_agree_with_std_on_every_short_path() {
    if std::path::MAIN_SEPARATOR != '/' {
        return;
    }
    for p in every_path(&['a', '.', '/'], 8) {
        let std_path = std::path::Path::new(&p);
        let std_name = std_path.file_name().map(|n| n.to_str().unwrap());
        let std_parent = std_path.parent().map_or("", |d| d.to_str().unwrap());
        assert_eq!(file_name(&p), std_name, "file name of {:?}", p);
        assert_eq!(parent_name(&p), std_parent, "parent of {:?}", p);
    }
}

#[test]
fn name_behind_a_separator_is_the_file_name() {
    for dir in ["", "/", "a", "/a/b", "a//", "./", "..", "a/./"] {
        for name in ["c.txt", ".x", "...", "a b", "名前"] {
            let path = format!("{}/{}", dir, name);
            assert_eq!(file_name(&path), Some(name));
        }
    }
}

#[test]
fn directory_without_trailing_separator_is_the_parent() {
    for dir in ["/", "a", "/a/b", "..", ".", "a/.x", "a/.."] {
        for name in ["c.txt", ".x", "..", "名前"] {
            let path = format!("{}/{}", dir, name);
            assert_eq!(parent_name(&path), dir);
        }
    }
}

#[test]
fn bare_name_is_its_own_file_name() {
    for name in ["c.txt", ".x", "...", "a b", "名前"] {
        assert_eq!(file_name(name), Some(name));
        assert_eq!(parent_name(name), "");
    }
}
