use wordcount::CountOption;

#[test]
fn default_mode_is_word() {
    assert_eq!(CountOption::default(), CountOption::Word);
}

#[test]
fn mode_names_are_read_exactly() {
    assert_eq!(CountOption::from_name("char"), Some(CountOption::Char));
    assert_eq!(CountOption::from_name("word"), Some(CountOption::Word));
    assert_eq!(CountOption::from_name("line"), Some(CountOption::Line));
}

#[test]
fn other_names_are_no_mode() {
    assert_eq!(CountOption::from_name(""), None);
    assert_eq!(CountOption::from_name("Word"), None);
    assert_eq!(CountOption::from_name("WORD"), None);
    assert_eq!(CountOption::from_name("words"), None);
    assert_eq!(CountOption::from_name(" line"), None);
    assert_eq!(CountOption::from_name("lines"), None);
    assert_eq!(CountOption::from_name("character"), None);
}
