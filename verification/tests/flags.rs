use ecma_regex::{FlagError, Flags};

#[test]
fn should_equal() {
    assert_eq!(Flags { global: true, ..Flags::empty() }.bits() as u32, 1 << 0);
    assert_eq!(Flags { ignore_case: true, ..Flags::empty() }.bits() as u32, 1 << 1);
    assert_eq!(Flags { multi_line: true, ..Flags::empty() }.bits() as u32, 1 << 2);
    assert_eq!(Flags { dot_all: true, ..Flags::empty() }.bits() as u32, 1 << 3);
    assert_eq!(Flags { unicode: true, ..Flags::empty() }.bits() as u32, 1 << 4);
    assert_eq!(Flags { sticky: true, ..Flags::empty() }.bits() as u32, 1 << 5);

    assert_eq!(
        Flags::all().bits() as u32,
        0 | (1 << 0) | (1 << 1) | (1 << 2) | (1 << 3) | (1 << 4) | (1 << 5)
    );
}

#[test]
fn flags_parse_each_letter() {
    let f = Flags::from_str("gimsuy").unwrap();
    assert_eq!(f, Flags::all());
    assert_eq!(Flags::from_str("").unwrap(), Flags::empty());
    assert_eq!(
        Flags::from_str("i").unwrap(),
        Flags { ignore_case: true, ..Flags::empty() }
    );
}

#[test]
fn flags_order_and_duplicates_do_not_matter() {
    assert_eq!(Flags::from_str("gi").unwrap(), Flags::from_str("ig").unwrap());
    assert_eq!(Flags::from_str("ggii").unwrap(), Flags::from_str("gi").unwrap());
}

#[test]
fn flags_report_the_first_invalid_letter() {
    assert_eq!(Flags::from_str("gxz"), Err(FlagError::InvalidFlag('x')));
    assert_eq!(Flags::from_str("G"), Err(FlagError::InvalidFlag('G')));
}

#[test]
fn flags_union_and_contains() {
    let gi = Flags::from_str("gi").unwrap();
    let iy = Flags::from_str("iy").unwrap();
    assert_eq!(gi.union(iy), Flags::from_str("giy").unwrap());
    assert_eq!(gi.union(Flags::empty()), gi);
    assert_eq!(gi.union(gi), gi);
    assert!(gi.contains(Flags::from_str("g").unwrap()));
    assert!(gi.contains(Flags::empty()));
    assert!(!gi.contains(iy));
    assert!(Flags::all().contains(gi.union(iy)));
    assert_eq!(gi.union(iy).bits(), 1 + 2 + 32);
}
