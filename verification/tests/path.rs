use std::path::Path;

use static_server::path::{component_spans, file_name, is_within, DOT, SLASH};

fn within(path: &str, root: &str) -> bool {
    is_within(path.as_bytes(), root.as_bytes())
}

fn components(path: &str) -> Vec<String> {
    component_spans(path.as_bytes())
        .into_iter()
        .map(|(begin, end)| path[begin..end].to_string())
        .collect()
}

fn name(path: &str) -> Option<String> {
    file_name(path.as_bytes()).map(|bytes| String::from_utf8(bytes).unwrap())
}

const SAMPLES: [&str; 40] = [
    "", "/", "//", "///", ".", "..", "./", "../", "/.", "/..", "a", "/a", "a/", "/a/", "a/b",
    "/a/b", "/a//b", "/a/./b", "/a/../b", "./a", "././a", "a/.", "a/..", "/srv/root",
    "/srv/root/", "/srv/root2", "/srv/root-evil", "/srv/root/index.html", "/srv/root/a/b.txt",
    "/srv", "srv/root", "/srv/root/..", "/srv/root/../root2", ".a", "a.", "...", "/.hidden",
    "/a/b/", "/a/b/.", "/é/è",
];

#[test]
fn separator_and_dot_bytes() {
    assert_eq!(SLASH, b'/');
    assert_eq!(DOT, b'.');
}

#[test]
fn components_of_an_absolute_path() {
    assert_eq!(components("/srv/root/index.html"), vec!["/", "srv", "root", "index.html"]);
    assert_eq!(components("/"), vec!["/"]);
}

#[test]
fn components_of_a_relative_path() {
    assert_eq!(components("a/b"), vec!["a", "b"]);
    assert_eq!(components(""), Vec::<String>::new());
}

#[test]
fn components_skip_empty_and_dot_pieces() {
    assert_eq!(components("//a///b/"), vec!["/", "a", "b"]);
    assert_eq!(components("/a/./b/."), vec!["/", "a", "b"]);
    assert_eq!(components("a/./b"), vec!["a", "b"]);
}

#[test]
fn components_keep_a_leading_dot_and_parent_pieces() {
    assert_eq!(components("./a"), vec![".", "a"]);
    assert_eq!(components("."), vec!["."]);
    assert_eq!(components("/a/../b"), vec!["/", "a", "..", "b"]);
    assert_eq!(components(".."), vec![".."]);
    assert_eq!(components("/.a/b."), vec!["/", ".a", "b."]);
}

#[test]
fn component_spans_mark_the_components() {
    assert_eq!(component_spans(b"/ab//c"), vec![(0, 1), (1, 3), (5, 6)]);
    assert_eq!(component_spans(b"./x"), vec![(0, 1), (2, 3)]);
    assert_eq!(component_spans(b""), Vec::<(usize, usize)>::new());
}

#[test]
fn components_agree_with_the_standard_path() {
    for sample in SAMPLES {
        let expected: Vec<String> = Path::new(sample)
            .components()
            .map(|component| component.as_os_str().to_str().unwrap().to_string())
            .collect();
        assert_eq!(components(sample), expected, "path {:?}", sample);
    }
}

#[test]
fn a_file_beneath_the_root_is_within() {
    assert!(within("/srv/root/index.html", "/srv/root"));
    assert!(within("/srv/root/a/b/c.txt", "/srv/root"));
    assert!(within("/srv/root/index.html", "/srv/root/"));
}

#[test]
fn the_root_is_within_itself() {
    assert!(within("/srv/root", "/srv/root"));
    assert!(within("/", "/"));
}

#[test]
fn everything_absolute_is_within_the_filesystem_root() {
    assert!(within("/etc/passwd", "/"));
    assert!(!within("etc/passwd", "/"));
}

#[test]
fn a_sibling_with_a_longer_name_is_outside() {
    assert!(!within("/srv/root2", "/srv/root"));
    assert!(!within("/srv/root-evil", "/srv/root"));
    assert!(!within("/srv/root-evil/index.html", "/srv/root"));
    assert!(!within("/srv/root.html", "/srv/root"));
}

#[test]
fn a_path_above_or_beside_the_root_is_outside() {
    assert!(!within("/srv", "/srv/root"));
    assert!(!within("/", "/srv/root"));
    assert!(!within("/etc/passwd", "/srv/root"));
    assert!(!within("/srv/other/root", "/srv/root"));
    assert!(!within("/srv/roo", "/srv/root"));
}

#[test]
fn a_relative_path_is_outside_an_absolute_root() {
    assert!(!within("srv/root/a", "/srv/root"));
    assert!(!within("/srv/root/a", "srv/root"));
}

#[test]
fn containment_agrees_with_the_standard_path() {
    for path in SAMPLES {
        for root in SAMPLES {
            assert_eq!(
                within(path, root),
                Path::new(path).starts_with(Path::new(root)),
                "path {:?} root {:?}",
                path,
                root
            );
        }
    }
}

#[test]
fn containment_compares_bytes_that_are_no_text() {
    assert!(is_within(b"/srv/\xff/a", b"/srv/\xff"));
    assert!(!is_within(b"/srv/\xfe/a", b"/srv/\xff"));
}

#[test]
fn file_name_is_the_final_component() {
    assert_eq!(name("/srv/root/index.html"), Some("index.html".to_string()));
    assert_eq!(name("notes.txt"), Some("notes.txt".to_string()));
    assert_eq!(name("/srv/root/dir/"), Some("dir".to_string()));
    assert_eq!(name("/a/b/."), Some("b".to_string()));
    assert_eq!(name("/.hidden"), Some(".hidden".to_string()));
}

#[test]
fn marks_and_parent_pieces_are_no_file_name() {
    assert_eq!(name(""), None);
    assert_eq!(name("/"), None);
    assert_eq!(name("."), None);
    assert_eq!(name(".."), None);
    assert_eq!(name("/a/.."), None);
}

#[test]
fn file_name_agrees_with_the_standard_path() {
    for sample in SAMPLES {
        let expected = Path::new(sample)
            .file_name()
            .map(|name| name.to_str().unwrap().to_string());
        assert_eq!(name(sample), expected, "path {:?}", sample);
    }
}
