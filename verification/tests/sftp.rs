use kenkoterminal::sftp::{entry_le_exec, sort_entries, FileEntry};

fn e(name: &str, is_dir: bool, size: u64) -> FileEntry {
    FileEntry { name: name.to_string(), is_dir, size }
}

fn names(v: &[FileEntry]) -> Vec<(String, bool, u64)> {
    v.iter().map(|x| (x.name.clone(), x.is_dir, x.size)).collect()
}

#[test]
fn directories_first_then_by_name() {
    let mut v = vec![
        e("zeta.txt", false, 1),
        e("etc", true, 0),
        e("alpha", false, 2),
        e("bin", true, 0),
        e("Zed", false, 3),
        e("é", false, 4),
    ];
    sort_entries(&mut v);
    assert_eq!(
        names(&v),
        vec![
            ("bin".to_string(), true, 0),
            ("etc".to_string(), true, 0),
            ("Zed".to_string(), false, 3),
            ("alpha".to_string(), false, 2),
            ("zeta.txt".to_string(), false, 1),
            ("é".to_string(), false, 4),
        ]
    );
}

#[test]
fn equal_entries_keep_their_order_and_prefix_comes_first() {
    let mut v = vec![e("b", false, 1), e("ab", false, 2), e("a", false, 3), e("b", false, 4)];
    sort_entries(&mut v);
    assert_eq!(
        names(&v),
        vec![
            ("a".to_string(), false, 3),
            ("ab".to_string(), false, 2),
            ("b".to_string(), false, 1),
            ("b".to_string(), false, 4),
        ]
    );
    let mut empty: Vec<FileEntry> = Vec::new();
    sort_entries(&mut empty);
    assert!(empty.is_empty());
}

#[test]
fn sorting_agrees_with_std_sort_by() {
    let base = vec![
        e("x", false, 1), e("b", true, 2), e("a", false, 3), e("x", false, 4), e("b", true, 5),
        e("", false, 6), e("ä", true, 7), e("B", false, 8),
    ];
    let mut mine = base.iter().map(|x| e(&x.name, x.is_dir, x.size)).collect::<Vec<_>>();
    sort_entries(&mut mine);
    let mut theirs = base;
    theirs.sort_by(|a, b| b.is_dir.cmp(&a.is_dir).then_with(|| a.name.cmp(&b.name)));
    assert_eq!(names(&mine), names(&theirs));
    assert!(entry_le_exec(&e("d", true, 0), &e("a", false, 0)));
    assert!(!entry_le_exec(&e("a", false, 0), &e("d", true, 0)));
}
