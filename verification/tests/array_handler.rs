use brainfuck::array_handler::ArrayHandler;

#[test]
fn add_positive() {
    let mut ah = ArrayHandler::new(2, true);
    ah.add(10);
    assert_eq!(ah.cells(), [0, 10]);
}

#[test]
fn add_negative() {
    let mut ah = ArrayHandler::new(2, true);
    ah.add(-10);
    assert_eq!(ah.cells(), [0, -10]);
}

#[test]
fn move_forward_no_resize() {
    let mut ah = ArrayHandler::new(10, true);
    assert!(ah.move_r(2));
    assert_eq!(ah.pos(), 7);
    assert_eq!(ah.capacity(), 10);
}

#[test]
fn move_backward_no_resize() {
    let mut ah = ArrayHandler::new(10, true);
    assert!(ah.move_r(-2));
    assert_eq!(ah.pos(), 3);
    assert_eq!(ah.capacity(), 10);
}

#[test]
fn move_forward_resize() {
    let mut ah = ArrayHandler::new(2, true);
    ah.add(10);
    assert!(ah.move_r(3));
    assert_eq!(ah.pos(), 4);
    assert_eq!(ah.capacity(), 8);
    assert_eq!(ah.cells(), [0, 10, 0, 0, 0, 0, 0, 0])
}

#[test]
fn move_backward_resize() {
    let mut ah = ArrayHandler::new(2, true);
    ah.add(10);
    assert!(ah.move_r(-4));
    assert_eq!(ah.pos(), 3);
    assert_eq!(ah.capacity(), 8);
    assert_eq!(ah.cells(), [0, 0, 0, 0, 0, 0, 0, 10])
}

#[test]
fn move_both_dir_resize() {
    let mut ah = ArrayHandler::new(2, true);
    ah.add(10);
    assert!(ah.move_r(1));
    assert!(ah.move_r(-3));
    assert_eq!(ah.pos(), 3);
    assert_eq!(ah.capacity(), 8);
    assert_eq!(ah.cells(), [0, 0, 0, 0, 0, 10, 0, 0])
}

#[test]
fn growth_keeps_logical_cells() {
    let mut ah = ArrayHandler::new(2, true);
    ah.add(7);
    assert!(ah.move_r(5));
    assert!(ah.move_r(-5));
    assert_eq!(ah.get(), 7);
    assert!(ah.move_r(-9));
    assert!(ah.move_r(9));
    assert_eq!(ah.get(), 7);
    assert_eq!(ah.get_at(1), 0);
}

#[test]
fn skip_move_finds_zero() {
    let mut ah = ArrayHandler::new(8, false);
    ah.set(1);
    assert!(ah.add_at(1, 2));
    assert!(ah.add_at(2, 3));
    let r = ah.skip_move(1, 1000);
    assert!(r.is_ok());
    assert_eq!(ah.get(), 0);
    assert_eq!(ah.pos(), 3);
}
