use rustws::{Symbol, WsIter};

#[test]
fn space() {
    assert_eq!(Symbol::from_char(' '), Some(Symbol::S));
}

#[test]
fn tab() {
    assert_eq!(Symbol::from_char('\t'), Some(Symbol::T));
}

#[test]
fn ln() {
    assert_eq!(Symbol::from_char('\n'), Some(Symbol::L));
}

#[test]
fn symbol_misc() {
    assert_eq!(Symbol::from_char('a'), None);
    assert_eq!(Symbol::from_char('b'), None);
    assert_eq!(Symbol::from_char('d'), None);
    assert_eq!(Symbol::from_char('t'), None);
    assert_eq!(Symbol::from_char('j'), None);
    assert_eq!(Symbol::from_char(','), None);
    assert_eq!(Symbol::from_char('\r'), None);
}

#[test]
fn normal() {
    let mut iter = WsIter::new("  \t \n\n \t");
    assert_eq!(iter.next(), Some(Symbol::S));
    assert_eq!(iter.next(), Some(Symbol::S));
    assert_eq!(iter.next(), Some(Symbol::T));
    assert_eq!(iter.next(), Some(Symbol::S));
    assert_eq!(iter.next(), Some(Symbol::L));
    assert_eq!(iter.next(), Some(Symbol::L));
    assert_eq!(iter.next(), Some(Symbol::S));
    assert_eq!(iter.next(), Some(Symbol::T));
    assert_eq!(iter.next(), None);
}

#[test]
fn comments() {
    let mut iter = WsIter::new("Hello World \t");
    assert_eq!(iter.next(), Some(Symbol::S));
    assert_eq!(iter.next(), Some(Symbol::S));
    assert_eq!(iter.next(), Some(Symbol::T));
    assert_eq!(iter.next(), None);
}

#[test]
fn symbol_comments() {
    let mut iter = WsIter::new("\t \n\r\r\n");
    assert_eq!(iter.next(), Some(Symbol::T));
    assert_eq!(iter.next(), Some(Symbol::S));
    assert_eq!(iter.next(), Some(Symbol::L));
    assert_eq!(iter.next(), Some(Symbol::L));
    assert_eq!(iter.next(), None);
}
