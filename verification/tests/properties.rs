use ecma_regex::{compile, exec, Error, ExecError, Flags, Regex};

#[test]
fn compiling_twice_gives_the_same_program() {
    let flags = Flags { ignore_case: true, ..Flags::empty() };
    let a = compile(r"(a|b)*c{2,3}[^x-z]\d", flags).unwrap();
    let b = compile(r"(a|b)*c{2,3}[^x-z]\d", flags).unwrap();
    assert_eq!(a, b);
    assert_eq!(compile("(", flags).err(), compile("(", flags).err());
}

#[test]
fn is_match_agrees_with_find() {
    let cases = [("a+b", "xxaab"), ("a+b", "xxaa"), ("^$", ""), ("(x)?y", "zzz"), ("\\d{3}", "ab123")];
    for (pat, text) in cases {
        let re = Regex::new(pat).unwrap();
        assert_eq!(re.is_match(text), re.find(text).is_some());
    }
}

#[test]
fn zero_width_matches_make_progress() {
    let re = Regex::new("a*").unwrap();
    let mut it = re.find_iter("bbb");
    let mut spans = Vec::new();
    loop {
        match it.next() {
            Some(m) => spans.push((m.start(), m.end())),
            None => break,
        }
    }
    assert_eq!(spans, vec![(0, 0), (1, 1), (2, 2), (3, 3)]);
    assert!(it.next().is_none());
}

#[test]
fn sticky_matches_only_at_the_start_offset() {
    let re = Regex::unstable_from_ecma_literal("/foo/y").unwrap();
    let m = re.find_at("xfoo", 1).unwrap().unwrap();
    assert_eq!(m.as_str(), "foo");
    assert_eq!((m.start(), m.end()), (1, 4));
    assert!(re.find_at("xfoo", 0).unwrap().is_none());
}

#[test]
fn ignore_case_folds_letters() {
    let re = Regex::with_flags("abc", Flags { ignore_case: true, ..Flags::empty() }).unwrap();
    assert!(re.is_match("ABC"));
    assert!(re.is_match("xaBcx"));
    assert!(!Regex::new("abc").unwrap().is_match("ABC"));
}

#[test]
fn literal_is_pattern_and_flags() {
    let a = Regex::unstable_from_ecma_literal(r"/\w+/g").unwrap();
    let b = Regex::with_flags(r"\w+", Flags { global: true, ..Flags::empty() }).unwrap();
    assert_eq!(a, b);
    assert_eq!(
        Regex::unstable_from_ecma_literal(r"/\w+/"),
        Regex::new("\\w+")
    );
}

#[test]
fn optional_group_that_takes_no_part_is_none() {
    let re = Regex::new("(a)(b)?").unwrap();
    let m = re.find("a").unwrap();
    assert_eq!(m.group_count(), 3);
    assert_eq!(m.group(0), Some("a"));
    assert_eq!(m.group(1), Some("a"));
    assert_eq!(m.group(2), None);
    assert_eq!(m.group(3), None);
}

#[test]
fn as_str_is_the_slice_between_start_and_end() {
    let text = "héllo wörld, ünïcode";
    let re = Regex::new(r"w\S+").unwrap();
    let m = re.find(text).unwrap();
    let chars: Vec<char> = text.chars().collect();
    let slice: String = chars[m.start()..m.end()].iter().collect();
    assert_eq!(m.as_str(), slice);
    assert_eq!(m.as_str(), "wörld,");
}

#[test]
fn budget_exhausted_is_an_error_and_no_mismatch() {
    let p = compile("(a*)*b", Flags::empty()).unwrap();
    let text = "aaaaaaaaaaaaaaaaaaaaaaaaaaaaaa";
    assert_eq!(exec(&p, text, 0, 1000).err(), Some(ExecError::ExecutionLimitExceeded));
    let easy = compile("a", Flags::empty()).unwrap();
    assert_eq!(exec(&easy, "a", 0, 0).err(), Some(ExecError::ExecutionLimitExceeded));
    assert_eq!(exec(&easy, "a", 0, 2).unwrap(), Some(vec![Some((0, 1))]));
    assert_eq!(exec(&easy, "b", 0, 100).unwrap(), None);
}

#[test]
fn literal_errors() {
    assert_eq!(Regex::unstable_from_ecma_literal("abc/").err(), Some(Error::MissingLeadingSlash));
    assert_eq!(Regex::unstable_from_ecma_literal("").err(), Some(Error::MissingLeadingSlash));
    assert_eq!(Regex::unstable_from_ecma_literal("/abc").err(), Some(Error::MissingTrailingSlash));
    assert_eq!(Regex::unstable_from_ecma_literal("/a[/]").err(), Some(Error::MissingTrailingSlash));
    assert_eq!(Regex::unstable_from_ecma_literal(r"/a\/").err(), Some(Error::MissingTrailingSlash));
    assert_eq!(Regex::unstable_from_ecma_literal("/abc/x").err(), Some(Error::InvalidFlag('x')));
}

#[test]
fn literal_ends_at_the_first_free_slash() {
    let in_class = Regex::unstable_from_ecma_literal("/[/]/").unwrap();
    assert_eq!(in_class, Regex::new("[/]").unwrap());
    assert!(in_class.is_match("a/b"));

    let escaped = Regex::unstable_from_ecma_literal(r"/a\/b/i").unwrap();
    assert_eq!(escaped, Regex::with_flags(r"a\/b", Flags::from_str("i").unwrap()).unwrap());
    assert!(escaped.is_match("xA/B"));

    let bracket = Regex::unstable_from_ecma_literal(r"/\[/g").unwrap();
    assert_eq!(bracket, Regex::with_flags(r"\[", Flags::from_str("g").unwrap()).unwrap());

    let class_with_bracket = Regex::unstable_from_ecma_literal(r"/[\]/]/").unwrap();
    assert_eq!(class_with_bracket, Regex::new(r"[\]/]").unwrap());

    assert_eq!(Regex::unstable_from_ecma_literal("/a/b/").err(), Some(Error::InvalidFlag('b')));
    assert_eq!(Regex::unstable_from_ecma_literal("//").unwrap(), Regex::new("").unwrap());
    assert_eq!(
        Regex::unstable_from_ecma_literal("//gi").unwrap(),
        Regex::with_flags("", Flags::from_str("gi").unwrap()).unwrap()
    );
    assert_eq!(Regex::unstable_from_ecma_literal("/").err(), Some(Error::MissingTrailingSlash));
    assert_eq!(
        Regex::unstable_from_ecma_literal("/(/").err(),
        Some(Error::Syntax(0, ecma_regex::SyntaxKind::UnterminatedGroup))
    );
}
