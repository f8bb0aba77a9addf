use command_grammar::command::{Command, Commander};
use command_grammar::node::Node;
use command_grammar::text::{eq_ignore_case, get_until_first_space, remove_until_first_space, starts_with};

fn s(x: &str) -> String {
    String::from(x)
}

fn console() -> Command {
    Command::new(s("console")).add_node(Node::fixed_string_new(s("clear")))
}

#[test]
fn console_clear_dispatches() {
    let mut c = Commander::new();
    c.add(console());
    assert_eq!(c.search(s("console clear")), vec![s("clear")]);
    assert_eq!(c.search(s("console cl")), vec![s("clear")]);
    assert_eq!(c.search(s("console xyz")), Vec::<String>::new());
}

#[test]
fn partial_name_completes() {
    let mut c = Commander::new();
    c.add(console());
    assert_eq!(c.search(s("cons")), vec![s("console")]);
}

#[test]
fn completions_keep_registration_order() {
    let mut c = Commander::new();
    c.add(console());
    c.add(Command::new(s("consume")));
    assert_eq!(c.search(s("cons")), vec![s("console"), s("consume")]);
}

#[test]
fn unknown_name_yields_nothing() {
    let mut c = Commander::new();
    c.add(console());
    assert_eq!(c.search(s("xyz")), Vec::<String>::new());
    assert_eq!(Commander::new().search(s("console")), Vec::<String>::new());
}

#[test]
fn name_alone_resolves_with_empty_rest() {
    let mut c = Commander::new();
    c.add(console());
    // the leaf "clear" is a valid terminal on the empty rest of the line
    assert_eq!(c.search(s("console")), vec![s("clear")]);
    assert_eq!(c.search(s("console ")), vec![s("clear")]);
}

#[test]
fn exact_match_wins_over_longer_names() {
    let foo = || Command::new(s("Foo")).add_node(Node::fixed_string_new(s("bar")));
    let foobar = || Command::new(s("foobar"));
    let mut c = Commander::new();
    c.add(foo());
    c.add(foobar());
    assert_eq!(c.search(s("foo b")), vec![s("bar")]);
    let mut d = Commander::new();
    d.add(foobar());
    d.add(foo());
    assert_eq!(d.search(s("foo b")), vec![s("bar")]);
    assert_eq!(d.search(s("foo")), vec![s("bar")]);
}

#[test]
fn first_of_duplicate_names_dispatches() {
    let mut c = Commander::new();
    c.add(Command::new(s("go")).add_node(Node::fixed_string_new(s("north"))));
    c.add(Command::new(s("go")).add_node(Node::fixed_string_new(s("south"))));
    assert_eq!(c.search(s("go n")), vec![s("north")]);
    assert_eq!(c.search(s("go s")), Vec::<String>::new());
    assert_eq!(c.search(s("g")), vec![s("go"), s("go")]);
}

#[test]
fn exact_match_ignores_case_but_prefix_does_not() {
    let mut c = Commander::new();
    c.add(Command::new(s("foo")).add_node(Node::fixed_string_new(s("x"))));
    assert_eq!(c.search(s("FOO x")), vec![s("x")]);
    assert_eq!(c.search(s("FOO")), vec![s("x")]);
    assert_eq!(c.search(s("Fo")), Vec::<String>::new());
    assert_eq!(c.search(s("fo")), vec![s("foo")]);
}

#[test]
fn search_twice_gives_same_answer() {
    let mut c = Commander::new();
    c.add(console());
    c.add(Command::new(s("consume")));
    assert_eq!(c.search(s("cons")), c.search(s("cons")));
    assert_eq!(c.search(s("console c")), c.search(s("console c")));
}

#[test]
fn command_tries_every_top_level_node() {
    let cmd = Command::new(s("set"))
        .add_node(Node::fixed_string_new(s("speed")))
        .add_node(Node::any_u8_new())
        .add_node(Node::fixed_string_new(s("size")));
    assert_eq!(cmd.check(s("s")), vec![s("speed"), s("size")]);
    assert_eq!(cmd.check(s("12")), vec![s("Any u8")]);
    assert_eq!(cmd.check(s("")), vec![s("speed"), s("Any u8"), s("size")]);
    assert_eq!(Command::new(s("x")).check(s("a")), Vec::<String>::new());
}

#[test]
fn split_at_first_space() {
    assert_eq!(get_until_first_space(&s("a b c")), s("a"));
    assert_eq!(remove_until_first_space(&s("a b c")), s("b c"));
    assert_eq!(get_until_first_space(&s("abc")), s("abc"));
    assert_eq!(remove_until_first_space(&s("abc")), s(""));
    assert_eq!(get_until_first_space(&s("abc ")), s("abc"));
    assert_eq!(remove_until_first_space(&s("abc ")), s(""));
    assert_eq!(get_until_first_space(&s(" x")), s(""));
    assert_eq!(remove_until_first_space(&s(" x")), s("x"));
    assert_eq!(get_until_first_space(&s("")), s(""));
}

#[test]
fn text_helpers() {
    assert!(eq_ignore_case("CoNsOlE", "console"));
    assert!(!eq_ignore_case("console", "consol"));
    assert!(!eq_ignore_case("a-b", "a_b"));
    assert!(starts_with("console", "cons"));
    assert!(starts_with("console", ""));
    assert!(!starts_with("console", "Cons"));
    assert!(!starts_with("co", "cons"));
}
