use helium_asm::helium::position::Position;

#[test]
fn find() {
    let src = "a\nabcdefg\nhalo\n";
    let pos = Position::new(1, 2, 4);
    assert_eq!(pos.find(src), Some("cdef"));
}

#[test]
fn find_before_and_after() {
    let src = "a\nabcdefg\nhalo\n";
    let pos = Position::new(1, 2, 4);
    assert_eq!(pos.find_before(src), Some("ab"));
    assert_eq!(pos.find_after(src), Some("g"));
}

#[test]
fn find_out_of_range_is_none() {
    let src = "one\ntwo";
    assert_eq!(Position::new(5, 0, 1).find(src), None);
    assert_eq!(Position::new(0, 2, 5).find(src), None);
    assert_eq!(Position::new(1, 0, 3).find(src), Some("two"));
}

#[test]
fn find_strips_carriage_returns() {
    let src = "ab\r\ncd";
    assert_eq!(Position::new(0, 0, 2).find(src), Some("ab"));
    assert_eq!(Position::new(0, 0, 3).find(src), None);
    assert_eq!(Position::new(1, 0, 2).find(src), Some("cd"));
}

#[test]
fn positions_compare_structurally() {
    assert_eq!(Position::new(1, 2, 3), Position::new(1, 2, 3));
    assert_ne!(Position::new(1, 2, 3), Position::new(1, 2, 4));
}
