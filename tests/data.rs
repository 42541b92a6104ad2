use termibbl::data::{palette, CanvasColor, Coord, Line, Message, Username};
use termibbl::network::ChatMessage;
use termibbl::session::parse_username;
use termibbl::text::trim;

#[test]
fn bresenham_cells_of_a_line() {
    let line = Line::new(Coord(0, 0), Coord(5, 6), CanvasColor::Black);
    let cells = line.coords_in();
    let expected = vec![
        Coord(0, 0),
        Coord(0, 1),
        Coord(1, 2),
        Coord(2, 3),
        Coord(3, 4),
        Coord(4, 5),
        Coord(5, 6),
    ];
    assert_eq!(cells, expected);
}

#[test]
fn bresenham_covers_endpoints_and_repeats() {
    let line = Line::new(Coord(9, 2), Coord(1, 7), CanvasColor::Red);
    let a = line.coords_in();
    let b = line.coords_in();
    assert_eq!(a, b);
    assert_eq!(a[0], Coord(9, 2));
    assert!(a.contains(&Coord(9, 2)));
    assert!(a.contains(&Coord(1, 7)));
    let swapped = Line::new(Coord(1, 7), Coord(9, 2), CanvasColor::Red).coords_in();
    assert!(swapped.contains(&Coord(9, 2)));
    assert!(swapped.contains(&Coord(1, 7)));
}

#[test]
fn bresenham_single_cell_and_far_corner() {
    assert_eq!(Line::new(Coord(3, 3), Coord(3, 3), CanvasColor::White).coords_in(), vec![Coord(3, 3)]);
    let far = Line::new(Coord(0, 0), Coord(65535, 65535), CanvasColor::White).coords_in();
    assert_eq!(far.len(), 65536);
    assert_eq!(far[65535], Coord(65535, 65535));
}

#[test]
fn coord_within_is_strict() {
    let a = Coord(10, 10);
    let b = Coord(0, 20);
    assert!(Coord(5, 15).within(&a, &b));
    assert!(!Coord(0, 15).within(&a, &b));
    assert!(!Coord(5, 10).within(&a, &b));
    assert!(!Coord(11, 15).within(&a, &b));
}

#[test]
fn username_identifier() {
    let mut u = Username::from("alice".to_string());
    assert_eq!(u.identifier(), &None);
    u.set_identifier("xyz".to_string());
    assert_eq!(u.identifier(), &Some("xyz".to_string()));
    assert_eq!(u.display_name(), "alice");
    assert_eq!(String::from(u), "alice");
}

#[test]
fn message_accessors() {
    let sys = Message::SystemMsg("hello".to_string());
    assert!(sys.is_system());
    assert_eq!(sys.text(), "hello");
    assert!(sys.username().is_none());
    let user = Message::UserMsg(Username::from("bob".to_string()), "hi".to_string());
    assert!(!user.is_system());
    assert_eq!(user.text(), "hi");
    assert_eq!(user.username().unwrap().name, "bob");
}

#[test]
fn chat_message_accessors() {
    let sys = ChatMessage::SystemMsg("hello".to_string());
    assert!(sys.is_system());
    assert_eq!(sys.text(), "hello");
    assert!(sys.username().is_none());
    let user = ChatMessage::UserMsg(Username::from("bob".to_string()), "hi".to_string());
    assert!(!user.is_system());
    assert_eq!(user.text(), "hi");
    assert_eq!(user.username().unwrap().name, "bob");
}

#[test]
fn palette_order() {
    let p = palette();
    assert_eq!(p.len(), 16);
    assert_eq!(p[0], CanvasColor::White);
    assert_eq!(p[15], CanvasColor::LightMagenta);
    assert_eq!(CanvasColor::default(), CanvasColor::White);
}

#[test]
fn username_line_is_trimmed() {
    assert_eq!(parse_username("  alice \r\n"), Some("alice".to_string()));
    assert_eq!(parse_username("   \t"), None);
    assert_eq!(parse_username(""), None);
    assert_eq!(trim("\u{3000} a b \u{2009}"), "a b");
}
