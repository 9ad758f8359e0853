use quent::constraints::{bullet_list, collapse};

#[test]
fn bullet_list_formats_each_item_on_its_own_line() {
    let items = vec!["a".to_string(), "bc".to_string(), "d e".to_string()];
    assert_eq!(bullet_list(&items), "  - a\n  - bc\n  - d e");
}

#[test]
fn bullet_list_of_one_item_has_no_newline() {
    assert_eq!(bullet_list(&["x".to_string()]), "  - x");
}

#[test]
fn bullet_list_of_nothing_is_empty() {
    assert_eq!(bullet_list(&[]), "");
}

#[test]
fn collapse_of_no_errors_is_ok() {
    let r: Result<(), String> = collapse(Vec::new(), |v: Vec<String>| v.join("+"));
    assert_eq!(r, Ok(()));
}

#[test]
fn collapse_returns_a_single_error_as_it_is() {
    let r = collapse(vec!["only".to_string()], |v: Vec<String>| v.join("+"));
    assert_eq!(r, Err("only".to_string()));
}

#[test]
fn collapse_wraps_several_errors() {
    let r = collapse(
        vec!["a".to_string(), "b".to_string(), "c".to_string()],
        |v: Vec<String>| format!("{} errors: {}", v.len(), v.join(",")),
    );
    assert_eq!(r, Err("3 errors: a,b,c".to_string()));
}
