use mediaexplorer_gui::entry::{Attributes, DirEntry};
use mediaexplorer_gui::state::companion_path;

fn file(path: &str) -> DirEntry {
    DirEntry {
        name: path.rsplit('/').next().unwrap().to_string(),
        path: path.to_string(),
        is_dir: false,
        size: 0,
        attributes: Attributes::default(),
        modified: None,
        children: Vec::new(),
    }
}

fn dir(path: &str, children: Vec<DirEntry>) -> DirEntry {
    DirEntry { is_dir: true, children, ..file(path) }
}

fn sample() -> Vec<DirEntry> {
    vec![
        file("GIRL.SC5"),
        file("GIRL.PL5"),
        dir("PICS", vec![file("PICS/GIRL.SC5"), file("PICS/girl.pl5"), dir("PICS/GIRL.PL7", vec![])]),
        file("NOEXT.PL5"),
    ]
}

#[test]
fn companion_is_the_sibling_with_the_other_extension() {
    let tree = sample();
    assert_eq!(companion_path(&tree, "PICS/GIRL.SC5", "PL5"), Some("PICS/girl.pl5".to_string()));
    assert_eq!(companion_path(&tree, "GIRL.SC5", "PL5"), Some("GIRL.PL5".to_string()));
    assert_eq!(companion_path(&tree, "GIRL.SC5", "pl5"), Some("GIRL.PL5".to_string()));
}

#[test]
fn companion_ignores_other_directories_and_folders() {
    let tree = sample();
    assert_eq!(companion_path(&tree, "PICS/GIRL.SC5", "PL6"), None);
    assert_eq!(companion_path(&tree, "PICS/GIRL.SC5", "PL7"), None);
    assert_eq!(companion_path(&tree, "OTHER/GIRL.SC5", "PL5"), None);
}

#[test]
fn companion_of_a_name_without_extension_uses_the_whole_name() {
    let tree = sample();
    assert_eq!(companion_path(&tree, "NOEXT", "PL5"), Some("NOEXT.PL5".to_string()));
    assert_eq!(companion_path(&tree, "A.B.SC5", "PL5"), None);
}
