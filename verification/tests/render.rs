use file_picker::icons::{get_icon, CLOSED_FOLDER_ICON, FILE_ICON, OPEN_FOLDER_ICON};
use file_picker::render::{body_area, popup_area, row_label, status_area, Area, POPUP_MAX_WIDTH};
use file_picker::tree::{flatten, FileNode};
use file_picker::types::{Entry, File, Folder};

fn screen(x: u16, y: u16, width: u16, height: u16) -> Area {
    Area { x, y, width, height }
}

#[test]
fn icons_by_kind_and_state() {
    assert_eq!(get_icon(false, false), "📄");
    assert_eq!(get_icon(false, true), "📄");
    assert_eq!(get_icon(true, true), "📂");
    assert_eq!(get_icon(true, false), "📁");
    assert_eq!(FILE_ICON, "📄");
    assert_eq!(OPEN_FOLDER_ICON, "📂");
    assert_eq!(CLOSED_FOLDER_ICON, "📁");
}

#[test]
fn body_leaves_the_last_row_to_the_status_line() {
    assert_eq!(body_area(screen(0, 0, 80, 24)), screen(0, 0, 80, 23));
    assert_eq!(status_area(screen(0, 0, 80, 24)), screen(0, 23, 80, 1));
    assert_eq!(body_area(screen(2, 3, 10, 1)), screen(2, 3, 10, 0));
    assert_eq!(body_area(screen(2, 3, 10, 0)), screen(2, 3, 10, 0));
    assert_eq!(status_area(screen(2, 3, 10, 0)), screen(0, 0, 10, 1));
    assert_eq!(status_area(screen(2, 3, 10, 5)), screen(0, 4, 10, 1));
}

#[test]
fn popup_is_centred_and_bounded() {
    assert_eq!(POPUP_MAX_WIDTH, 60);
    // wide screen: the width is capped; three items and the border
    assert_eq!(popup_area(screen(0, 0, 80, 24), 3), screen(10, 9, 60, 5));
    // narrow screen: ten columns less than the screen
    assert_eq!(popup_area(screen(0, 0, 40, 24), 3), screen(5, 9, 30, 5));
    // many items: four rows less than the screen
    assert_eq!(popup_area(screen(0, 0, 80, 24), 100), screen(10, 2, 60, 20));
    assert_eq!(popup_area(screen(0, 0, 80, 24), 18), screen(10, 2, 60, 20));
    assert_eq!(popup_area(screen(0, 0, 80, 24), 17), screen(10, 2, 60, 19));
    assert_eq!(popup_area(screen(0, 0, 80, 24), usize::MAX), screen(10, 2, 60, 20));
    // an offset screen
    assert_eq!(popup_area(screen(4, 2, 80, 24), 0), screen(14, 13, 60, 2));
    // a screen too small for anything
    assert_eq!(popup_area(screen(0, 0, 8, 3), 2), screen(4, 1, 0, 0));
    assert_eq!(popup_area(screen(0, 0, 0, 0), 2), screen(0, 0, 0, 0));
}

#[test]
fn row_labels_show_depth_icon_and_name() {
    let mut forest = vec![
        FileNode::new("docs".to_string(), "./docs".to_string(), true),
        FileNode::new("src".to_string(), "./src".to_string(), true),
    ];
    forest[0].expand(vec![
        FileNode::new("sub".to_string(), "./docs/sub".to_string(), true),
        FileNode::new("a b.md".to_string(), "./docs/a b.md".to_string(), false),
    ]);
    forest[0].children[0]
        .expand(vec![FileNode::new("x".to_string(), "./docs/sub/x".to_string(), false)]);
    let labels: Vec<String> = flatten(&forest).iter().map(row_label).collect();
    assert_eq!(
        labels,
        vec!["📂 docs", "  📂 sub", "    📄 x", "  📄 a b.md", "📁 src"]
    );
}

#[test]
fn records_hold_what_they_are_given() {
    let f = File { name: "a".to_string(), path: "./a".to_string(), is_directory: false };
    let d = Folder {
        name: "d".to_string(),
        path: "./d".to_string(),
        files: vec![f.clone()],
        is_expanded: true,
    };
    assert_eq!(d.files[0], f);
    assert!(d.is_expanded);
    assert!(!f.is_directory);
    let e = Entry { name: "d".to_string(), is_dir: true };
    assert_eq!(e.name, d.name);
    assert!(e.is_dir);
}
