use file_picker::tree::{find_node, flatten, with_node_mut, FileNode};

fn dir(name: &str, path: &str) -> FileNode {
    FileNode::new(name.to_string(), path.to_string(), true)
}

fn file(name: &str, path: &str) -> FileNode {
    FileNode::new(name.to_string(), path.to_string(), false)
}

fn names(forest: &[FileNode]) -> Vec<String> {
    flatten(forest).iter().map(|r| r.name.clone()).collect()
}

#[test]
fn new_node_is_collapsed_and_childless() {
    let n = dir("docs", "./docs");
    assert_eq!(n.name, "docs");
    assert_eq!(n.path, "./docs");
    assert!(n.is_dir);
    assert!(!n.is_expanded);
    assert!(n.children.is_empty());
}

#[test]
fn expand_takes_the_listing_once() {
    let mut d = dir("docs", "./docs");
    d.expand(vec![file("a", "./docs/a"), file("b", "./docs/b")]);
    assert!(d.is_expanded);
    assert_eq!(d.children.len(), 2);
    assert_eq!(d.children[0].name, "a");
    assert_eq!(d.children[1].name, "b");
    // a second expansion changes nothing
    d.expand(vec![file("c", "./docs/c")]);
    assert!(d.is_expanded);
    assert_eq!(d.children.len(), 2);
    assert_eq!(d.children[0].name, "a");
}

#[test]
fn expand_leaves_a_file_alone() {
    let mut f = file("readme.txt", "./readme.txt");
    f.expand(vec![file("a", "./a")]);
    assert!(!f.is_expanded);
    assert!(f.children.is_empty());
}

#[test]
fn expand_with_empty_listing_is_expanded_and_childless() {
    let mut d = dir("empty", "./empty");
    d.expand(Vec::new());
    assert!(d.is_expanded);
    assert!(d.children.is_empty());
}

#[test]
fn collapse_after_expand_drops_children() {
    let mut d = dir("docs", "./docs");
    d.expand(vec![file("a", "./docs/a"), dir("sub", "./docs/sub")]);
    d.collapse();
    assert!(!d.is_expanded);
    assert!(d.children.is_empty());
    // collapsing again changes nothing
    d.collapse();
    assert!(!d.is_expanded);
    assert!(d.children.is_empty());
    assert_eq!(d.name, "docs");
    assert_eq!(d.path, "./docs");
    assert!(d.is_dir);
}

#[test]
fn reexpanding_with_the_same_listing_gives_the_same_children() {
    let listing = || vec![file("a", "./docs/a"), dir("sub", "./docs/sub")];
    let mut forest = vec![dir("docs", "./docs"), file("z", "./z")];
    forest[0].expand(listing());
    let before = names(&forest);
    forest[0].collapse();
    assert_eq!(names(&forest), vec!["docs", "z"]);
    forest[0].expand(listing());
    assert_eq!(names(&forest), before);
    assert_eq!(before, vec!["docs", "a", "sub", "z"]);
}

#[test]
fn flatten_of_empty_forest_is_empty() {
    assert!(flatten(&[]).is_empty());
}

#[test]
fn flatten_of_collapsed_forest_is_one_row_per_root() {
    let forest = vec![dir("docs", "./docs"), file("readme.txt", "./readme.txt")];
    let rows = flatten(&forest);
    assert_eq!(rows.len(), 2);
    assert_eq!(rows[0].idx_path, vec![0]);
    assert_eq!(rows[0].name, "docs");
    assert_eq!(rows[0].indent, 0);
    assert!(rows[0].is_dir);
    assert!(!rows[0].is_expanded);
    assert_eq!(rows[1].idx_path, vec![1]);
    assert_eq!(rows[1].name, "readme.txt");
    assert_eq!(rows[1].path, "./readme.txt");
    assert!(!rows[1].is_dir);
}

#[test]
fn flatten_is_preorder_and_skips_collapsed_subtrees() {
    let mut forest = vec![dir("a", "./a"), dir("b", "./b"), file("c", "./c")];
    forest[0].expand(vec![dir("a1", "./a/a1"), file("a2", "./a/a2")]);
    forest[0].children[0].expand(vec![file("deep", "./a/a1/deep")]);
    forest[1].expand(vec![file("b1", "./b/b1")]);
    let rows = flatten(&forest);
    let got: Vec<(&str, Vec<usize>, usize)> =
        rows.iter().map(|r| (r.name.as_str(), r.idx_path.clone(), r.indent)).collect();
    assert_eq!(
        got,
        vec![
            ("a", vec![0], 0),
            ("a1", vec![0, 0], 1),
            ("deep", vec![0, 0, 0], 2),
            ("a2", vec![0, 1], 1),
            ("b", vec![1], 0),
            ("b1", vec![1, 0], 1),
            ("c", vec![2], 0),
        ]
    );
    assert!(rows[0].is_expanded);
    assert!(rows[1].is_expanded);
    // a collapsed directory shows itself and nothing below it
    forest[0].children[0].collapse();
    assert_eq!(names(&forest), vec!["a", "a1", "a2", "b", "b1", "c"]);
    forest[0].collapse();
    assert_eq!(names(&forest), vec!["a", "b", "b1", "c"]);
}

#[test]
fn flatten_does_not_enter_a_file_marked_expanded() {
    let mut odd = file("odd", "./odd");
    odd.is_expanded = true;
    odd.children.push(file("hidden", "./odd/hidden"));
    let rows = flatten(&[odd]);
    assert_eq!(rows.len(), 1);
    assert_eq!(rows[0].name, "odd");
    assert!(rows[0].is_expanded);
}

#[test]
fn every_row_leads_back_to_its_node() {
    let mut forest = vec![dir("a", "./a"), dir("b", "./b")];
    forest[0].expand(vec![dir("a1", "./a/a1"), file("a2", "./a/a2")]);
    forest[0].children[0].expand(vec![file("deep", "./a/a1/deep")]);
    forest[1].expand(vec![file("b1", "./b/b1")]);
    let rows = flatten(&forest);
    assert_eq!(rows.len(), 6);
    for row in &rows {
        let node = find_node(&forest, &row.idx_path).unwrap();
        assert_eq!(node.name, row.name);
        assert_eq!(node.path, row.path);
        assert_eq!(node.is_dir, row.is_dir);
        assert_eq!(node.is_expanded, row.is_expanded);
        assert_eq!(row.indent + 1, row.idx_path.len());
    }
}

#[test]
fn find_node_follows_the_path() {
    let mut forest = vec![dir("a", "./a"), dir("b", "./b")];
    forest[1].expand(vec![file("x", "./b/x"), dir("y", "./b/y")]);
    assert_eq!(find_node(&forest, &[0]).unwrap().name, "a");
    assert_eq!(find_node(&forest, &[1, 0]).unwrap().name, "x");
    assert_eq!(find_node(&forest, &[1, 1]).unwrap().name, "y");
    assert!(find_node(&forest, &[]).is_none());
    assert!(find_node(&forest, &[2]).is_none());
    assert!(find_node(&forest, &[1, 2]).is_none());
    assert!(find_node(&forest, &[0, 0]).is_none());
    assert!(find_node(&forest, &[1, 0, 0]).is_none());
}

#[test]
fn with_node_mut_reaches_nested_node() {
    let mut forest = vec![dir("a", "./a"), dir("b", "./b")];
    forest[1].expand(vec![file("x", "./b/x"), dir("y", "./b/y")]);
    {
        let y = with_node_mut(&mut forest, &[1, 1]).unwrap();
        assert_eq!(y.name, "y");
        y.expand(vec![file("z", "./b/y/z")]);
    }
    let rows = flatten(&forest);
    let got: Vec<&str> = rows.iter().map(|r| r.name.as_str()).collect();
    assert_eq!(got, vec!["a", "b", "x", "y", "z"]);
    assert_eq!(rows[4].idx_path, vec![1, 1, 0]);
    assert_eq!(rows[4].indent, 2);
    assert!(with_node_mut(&mut forest, &[]).is_none());
    assert!(with_node_mut(&mut forest, &[2]).is_none());
    assert!(with_node_mut(&mut forest, &[0, 0]).is_none());
    // a failed lookup leaves the forest as it was
    assert_eq!(names(&forest), vec!["a", "b", "x", "y", "z"]);
}

#[test]
fn with_node_mut_changes_only_the_node_it_lends() {
    let mut forest = vec![dir("a", "./a"), dir("b", "./b"), file("c", "./c")];
    forest[0].expand(vec![file("a1", "./a/a1")]);
    forest[1].expand(vec![file("b1", "./b/b1")]);
    with_node_mut(&mut forest, &[1]).unwrap().collapse();
    assert_eq!(names(&forest), vec!["a", "a1", "b", "c"]);
    assert!(forest[0].is_expanded);
    assert!(!forest[1].is_expanded);
}
