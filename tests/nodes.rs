use command_grammar::node::Node;
use command_grammar::value::{parse_f32_ok, parse_u8_ok, NodeData};

fn s(x: &str) -> String {
    String::from(x)
}

fn none() -> Vec<String> {
    Vec::new()
}

#[test]
fn any_u8_leaf() {
    let n = Node::any_u8_new();
    assert_eq!(n.check(s("42")), vec![s("Any u8")]);
    assert_eq!(n.check(s("abc")), none());
    assert_eq!(n.check(s("300")), none());
    assert_eq!(n.check(s("255")), vec![s("Any u8")]);
    assert_eq!(n.check(s("256")), none());
    assert_eq!(n.check(s("+7")), vec![s("Any u8")]);
    assert_eq!(n.check(s("-1")), none());
    assert_eq!(n.check(s("007")), vec![s("Any u8")]);
    // an exhausted input on a leaf is a valid terminal
    assert_eq!(n.check(s("")), vec![s("Any u8")]);
}

#[test]
fn fixed_node_prefix() {
    let n = Node::fixed_string_new(s("clear"));
    assert_eq!(n.check(s("cl")), vec![s("clear")]);
    assert_eq!(n.check(s("clear")), vec![s("clear")]);
    assert_eq!(n.check(s("")), vec![s("clear")]);
    assert_eq!(n.check(s("clearer")), none());
    assert_eq!(n.check(s("CL")), none());
    assert_eq!(n.check(s("xy")), none());
}

#[test]
fn fixed_u8_renders_decimal() {
    assert_eq!(Node::fixed_u8_new(200).check(s("2")), vec![s("200")]);
    assert_eq!(Node::fixed_u8_new(7).check(s("")), vec![s("7")]);
    assert_eq!(Node::fixed_u8_new(42).check(s("43")), none());
    assert_eq!(NodeData::U8(Some(0)).representative_string(), s("0"));
    assert_eq!(NodeData::U8(Some(9)).representative_string(), s("9"));
    assert_eq!(NodeData::U8(Some(10)).representative_string(), s("10"));
    assert_eq!(NodeData::U8(Some(105)).representative_string(), s("105"));
    assert_eq!(NodeData::U8(Some(255)).representative_string(), s("255"));
}

#[test]
fn labels_of_open_values() {
    assert_eq!(NodeData::U8(None).representative_string(), s("Any u8"));
    assert_eq!(NodeData::F32(None).representative_string(), s("Any f32"));
    assert_eq!(NodeData::Text(None).representative_string(), s("Any String"));
    assert_eq!(NodeData::Text(Some(s("hi"))).representative_string(), s("hi"));
    assert_eq!(NodeData::F32(Some(s("1.5"))).representative_string(), s("1.5"));
}

#[test]
fn any_string_accepts_everything() {
    let n = Node::any_string_new();
    assert_eq!(n.check(s("")), vec![s("Any String")]);
    assert_eq!(n.check(s("anything at all")), vec![s("Any String")]);
    let p = Node::any_string_new().add_node(Node::fixed_string_new(s("on")));
    assert_eq!(p.check(s("")), vec![s("Any String"), s("on")]);
}

#[test]
fn any_f32_node() {
    let n = Node::any_f32_new();
    assert_eq!(n.check(s("1.5")), vec![s("Any f32")]);
    assert_eq!(n.check(s("-NaN")), vec![s("Any f32")]);
    assert_eq!(n.check(s("x")), none());
    let f = Node::fixed_f32_new(s("2.5"));
    assert_eq!(f.check(s("2.")), vec![s("2.5")]);
    assert_eq!(f.check(s("3")), none());
}

#[test]
fn u8_syntax() {
    for ok in ["0", "9", "255", "+1", "0000255"] {
        assert!(parse_u8_ok(ok), "{}", ok);
        assert_eq!(parse_u8_ok(ok), ok.parse::<u8>().is_ok());
    }
    for bad in ["", "+", "-", "-0", "256", "1000", " 1", "1 ", "1a", "++1"] {
        assert!(!parse_u8_ok(bad), "{}", bad);
        assert_eq!(parse_u8_ok(bad), bad.parse::<u8>().is_ok());
    }
}

#[test]
fn f32_syntax() {
    for ok in [
        "0", "1.5", "-1.5", "+2", ".5", "5.", "1e10", "1E-3", "2.5e+7", "inf", "-Infinity", "NaN",
        "1e99", "007",
    ] {
        assert!(parse_f32_ok(ok), "{}", ok);
        assert_eq!(parse_f32_ok(ok), ok.parse::<f32>().is_ok(), "{}", ok);
    }
    for bad in ["", ".", "-", "e5", "1e", "1e+", "1.2.3", "abc", " 1", "1 ", "infx", "--1", "1.e.5"] {
        assert!(!parse_f32_ok(bad), "{}", bad);
        assert_eq!(parse_f32_ok(bad), bad.parse::<f32>().is_ok(), "{}", bad);
    }
}

#[test]
fn empty_input_reaches_children_of_fixed_node() {
    let n = Node::fixed_string_new(s("clear")).add_node(Node::any_u8_new());
    assert_eq!(n.check(s("")), vec![s("clear"), s("Any u8")]);
}

#[test]
fn children_get_the_same_input() {
    let tree = Node::fixed_string_new(s("set"))
        .add_node(Node::any_u8_new())
        .add_node(Node::fixed_string_new(s("sets")).add_node(Node::fixed_string_new(s("s"))));
    assert_eq!(tree.check(s("se")), vec![s("set"), s("sets")]);
    assert_eq!(tree.check(s("s")), vec![s("set"), s("sets"), s("s")]);
    assert_eq!(tree.check(s("x")), none());
    let num = Node::any_u8_new().add_node(Node::fixed_u8_new(12));
    assert_eq!(num.check(s("1")), vec![s("Any u8"), s("12")]);
    assert_eq!(num.check(s("")), none());
}

#[test]
fn rejection_skips_children() {
    let n = Node::fixed_string_new(s("ab")).add_node(Node::any_string_new());
    assert_eq!(n.check(s("x")), none());
    let m = Node::any_u8_new().add_node(Node::any_string_new());
    assert_eq!(m.check(s("x")), none());
}

#[test]
fn check_twice_gives_same_answer() {
    let n = Node::fixed_string_new(s("clear")).add_node(Node::any_u8_new());
    assert_eq!(n.check(s("c")), n.check(s("c")));
    assert_eq!(n.check(s("")), n.check(s("")));
}
