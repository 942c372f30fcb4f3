use brainfuck::reader::Reader;

#[test]
fn go_through() {
    let s = String::from("/-~||||\\\\////...,,,++++<><><>>>><>");
    let mut rdr = Reader::from_string(s.clone());
    let mut ss = String::with_capacity(35);
    while rdr.has_next() {
        ss.push(rdr.next());
    }
    assert_eq!(s, ss);
}

#[test]
fn filtering() {
    let s = String::from("/-dsff~||||\\\\hfdghg////...gdfd,,,++++<><><>54245245>>><:::;;;;{}>");
    let mut rdr = Reader::from_string(s);
    let mut ss = String::with_capacity(35);
    while rdr.has_next() {
        ss.push(rdr.next());
    }
    assert_eq!(String::from("/-~||||\\\\////...,,,++++<><><>>>><>"), ss);
}

#[test]
fn peek_does_not_consume() {
    let mut rdr = Reader::from_string(String::from("Testing, peek."));
    assert_eq!(rdr.peek(), ',');
    assert_eq!(rdr.peek(), ',');
    assert_eq!(rdr.next(), ',');
    assert_eq!(rdr.next(), '.');
    assert!(!rdr.has_next());
}
