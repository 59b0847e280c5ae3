use liyu::args::Argument;

fn parts(text: &str) -> (Option<String>, Option<String>) {
    let arg = Argument::new(&String::from(text));
    (arg.key, arg.value)
}

#[test]
pub fn bare_value() {
    assert_eq!(parts("depth"), (None, Some(String::from("depth"))));
    assert_eq!(parts(""), (None, Some(String::new())));
    assert_eq!(parts("-x=1"), (None, Some(String::from("-x=1"))));
    assert_eq!(parts("-"), (None, Some(String::from("-"))));
}

#[test]
pub fn key_alone() {
    assert_eq!(parts("--fen"), (Some(String::from("fen")), None));
    assert_eq!(parts("--"), (Some(String::new()), None));
}

#[test]
pub fn key_and_value() {
    assert_eq!(parts("--depth=4"), (Some(String::from("depth")), Some(String::from("4"))));
    assert_eq!(parts("--depth="), (Some(String::from("depth")), Some(String::new())));
    assert_eq!(parts("--=7"), (Some(String::new()), Some(String::from("7"))));
    assert_eq!(
        parts("--fen=4k4/9/9/9/9/9/9/9/9/4K4 w - - 0 1"),
        (Some(String::from("fen")), Some(String::from("4k4/9/9/9/9/9/9/9/9/4K4 w - - 0 1")))
    );
}

#[test]
pub fn value_ends_at_the_next_equals() {
    assert_eq!(parts("--a=b=c"), (Some(String::from("a")), Some(String::from("b"))));
    assert_eq!(parts("--a==c"), (Some(String::from("a")), Some(String::new())));
}
