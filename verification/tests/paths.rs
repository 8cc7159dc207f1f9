use squoosh::paths::sort_paths;
use std::path::PathBuf;

#[test]
fn paths_sort_as_the_standard_library_sorts_them() {
    let list = [
        "d/x.png", "d-2/y.png", "d/a/b.png", "/abs/z.png", "./c.png", "c.png", "a//b.png", "a/b.png",
        "a/./b.png", "../up.png", "B.png", "a.png", "é.png", "z.png", "/", ".", "a/..", "a/../b",
        "d/x.png/", "dd/x.png",
    ];
    let sorted = sort_paths(list.iter().map(|s| s.to_string()).collect());
    let mut std_sorted: Vec<PathBuf> = list.iter().map(PathBuf::from).collect();
    std_sorted.sort();
    let ours: Vec<PathBuf> = sorted.iter().map(PathBuf::from).collect();
    // Paths that std finds equal may come in either order; the order is the same.
    for w in ours.windows(2) {
        assert!(w[0] <= w[1], "{:?} before {:?}", w[0], w[1]);
    }
    let mut a = sorted.clone();
    a.sort();
    let mut b: Vec<String> = list.iter().map(|s| s.to_string()).collect();
    b.sort();
    assert_eq!(a, b);
    assert_eq!(ours.len(), std_sorted.len());
    assert_eq!(&sorted[..2], &["/".to_string(), "/abs/z.png".to_string()]);
    let d = sorted.iter().position(|p| p == "d/x.png").unwrap();
    let d2 = sorted.iter().position(|p| p == "d-2/y.png").unwrap();
    assert!(d < d2);
}
