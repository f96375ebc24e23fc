use ecma_regex::Regex;

#[test]
fn supports_look_ahead() {
    let re = Regex::new(r"^(?=.*?[A-Z])(?=.*?[a-z])(?=.*?[0-9]).{6,10}$");
    assert!(re.is_ok());
}

#[test]
fn look_ahead_password_rule() {
    let re = Regex::new(r"^(?=.*?[A-Z])(?=.*?[a-z])(?=.*?[0-9]).{6,10}$").unwrap();
    assert!(re.is_match("Passw0rd"));
    assert!(!re.is_match("password"));
    assert!(!re.is_match("Pw0"));
    assert!(!re.is_match("Passw0rdPassw0rd"));
}
