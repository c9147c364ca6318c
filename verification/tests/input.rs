use file_picker::input::{describe_mouse, MouseButton, MouseEvent, MouseEventKind};

fn at(kind: MouseEventKind, column: u16, row: u16) -> String {
    describe_mouse(MouseEvent { kind, column, row })
}

#[test]
fn describes_button_events() {
    assert_eq!(at(MouseEventKind::Down(MouseButton::Right), 3, 4), "Mouse Down Right at (3, 4)");
    assert_eq!(at(MouseEventKind::Down(MouseButton::Left), 0, 0), "Mouse Down Left at (0, 0)");
    assert_eq!(at(MouseEventKind::Up(MouseButton::Middle), 10, 200), "Mouse Up Middle at (10, 200)");
    assert_eq!(
        at(MouseEventKind::Drag(MouseButton::Left), 65535, 1),
        "Mouse Drag Left at (65535, 1)"
    );
}

#[test]
fn describes_moves_and_scrolls() {
    assert_eq!(at(MouseEventKind::Moved, 12, 34), "Mouse Move at (12, 34)");
    assert_eq!(at(MouseEventKind::ScrollUp, 1, 2), "Mouse ScrollUp at (1, 2)");
    assert_eq!(at(MouseEventKind::ScrollDown, 5, 6), "Mouse ScrollDown at (5, 6)");
}

#[test]
fn does_not_describe_sideways_scrolling() {
    assert_eq!(at(MouseEventKind::ScrollLeft, 1, 2), "Unknown mouse event");
    assert_eq!(at(MouseEventKind::ScrollRight, 1, 2), "Unknown mouse event");
}
