use svd_compile::ident::{
    apply_case, assign_all, is_reserved_name, normalize, sanitize, Convention, Scope,
};

fn sanitized(name: &str) -> String {
    sanitize(&name.chars().collect()).into_iter().collect()
}

#[test]
fn colliding_register_names_get_a_suffix() {
    let names = vec!["CTRL".to_string(), "ctrl".to_string()];
    let ids = assign_all(Convention::Snake, &names);
    assert_eq!(ids, vec!["ctrl".to_string(), "ctrl_2".to_string()]);
}

#[test]
fn third_collision_gets_the_next_suffix() {
    let names = vec!["CTRL".to_string(), "ctrl".to_string(), "Ctrl".to_string()];
    let ids = assign_all(Convention::Snake, &names);
    assert_eq!(ids, vec!["ctrl".to_string(), "ctrl_2".to_string(), "ctrl_3".to_string()]);
}

#[test]
fn suffix_skips_a_name_that_is_taken() {
    let names = vec!["a".to_string(), "a_2".to_string(), "a".to_string()];
    let ids = assign_all(Convention::Snake, &names);
    assert_eq!(ids, vec!["a".to_string(), "a_2".to_string(), "a_3".to_string()]);
}

#[test]
fn letter_case_follows_the_convention() {
    assert_eq!(apply_case(Convention::Snake, "HelloWorld"), "hello_world");
    assert_eq!(apply_case(Convention::Pascal, "hello_world"), "HelloWorld");
    assert_eq!(apply_case(Convention::Constant, "helloWorld"), "HELLO_WORLD");
}

#[test]
fn reserved_word_gets_an_underscore() {
    assert_eq!(normalize(Convention::Snake, "MATCH"), "match_");
    assert_eq!(normalize(Convention::Snake, "type"), "type_");
}

#[test]
fn leading_digit_gets_an_underscore() {
    assert_eq!(normalize(Convention::Snake, "2ND"), "_2nd");
}

#[test]
fn empty_name_becomes_an_identifier() {
    assert_eq!(normalize(Convention::Snake, ""), "__");
}

#[test]
fn characters_outside_identifiers_are_dropped() {
    assert_eq!(normalize(Convention::Snake, "A[%s]"), "as_");
    assert_eq!(normalize(Convention::Constant, "irq.7"), "IRQ7");
}

#[test]
fn scope_remembers_what_it_assigned() {
    let mut scope = Scope::new();
    assert_eq!(scope.len(), 0);
    let first = scope.assign(Convention::Snake, "Status");
    let second = scope.assign(Convention::Snake, "STATUS");
    assert_eq!(first, "status");
    assert_eq!(second, "status_2");
    assert!(scope.contains("status"));
    assert!(scope.contains("status_2"));
    assert!(!scope.contains("status_3"));
    assert_eq!(scope.len(), 2);
}

#[test]
fn scopes_are_independent() {
    let mut a = Scope::new();
    let mut b = Scope::new();
    assert_eq!(a.assign(Convention::Snake, "x"), "x");
    assert_eq!(b.assign(Convention::Snake, "x"), "x");
}

#[test]
fn assignment_is_repeatable() {
    let names = vec!["A".to_string(), "a".to_string(), "B".to_string(), "a".to_string()];
    assert_eq!(assign_all(Convention::Snake, &names), assign_all(Convention::Snake, &names));
}

#[test]
fn sanitizing_keeps_a_valid_identifier() {
    assert_eq!(sanitized("ctrl"), "ctrl");
    assert_eq!(sanitized("_x9"), "_x9");
    assert_eq!(sanitized("CamelCase"), "CamelCase");
}

#[test]
fn sanitizing_makes_any_name_an_identifier() {
    assert_eq!(sanitized(""), "__");
    assert_eq!(sanitized("9lives"), "_9lives");
    assert_eq!(sanitized("a-b c"), "abc");
    assert_eq!(sanitized("loop"), "loop_");
    assert_eq!(sanitized("_"), "__");
    assert_eq!(sanitized("é"), "__");
    assert_eq!(sanitized("f(n)"), "fn_");
}

#[test]
fn reserved_words_are_recognised() {
    let reserved = |name: &str| is_reserved_name(&name.chars().collect());
    assert!(reserved("fn"));
    assert!(reserved("Self"));
    assert!(reserved("self"));
    assert!(reserved("_"));
    assert!(reserved("yield"));
    assert!(!reserved("FN"));
    assert!(!reserved("fn_"));
    assert!(!reserved(""));
    assert!(!reserved("register"));
}
