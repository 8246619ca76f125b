use clink::expand_string::expand_string;
use clink::expand_string::PatternSyntaxError;

#[test]
fn no_groups() {
    assert_eq!(expand_string("foo").unwrap(), vec!["foo"]);
}

#[test]
fn one_group() {
    assert_eq!(expand_string("foo.(bar|baz)").unwrap(), vec!["foo.bar", "foo.baz"]);
}

#[test]
fn nested_groups() {
    assert_eq!(
        expand_string("foo.(bar|baz.(qux|wux)|sar)").unwrap(),
        vec!["foo.bar", "foo.baz.qux", "foo.baz.wux", "foo.sar"]
    );
}

#[test]
fn start_group() {
    assert_eq!(
        expand_string("(a.|)foo.(bar|baz.(qux|wux)|sar)(.b|.c)").unwrap(),
        vec![
            "a.foo.bar.b",
            "a.foo.bar.c",
            "a.foo.baz.qux.b",
            "a.foo.baz.qux.c",
            "a.foo.baz.wux.b",
            "a.foo.baz.wux.c",
            "a.foo.sar.b",
            "a.foo.sar.c",
            "foo.bar.b",
            "foo.bar.c",
            "foo.baz.qux.b",
            "foo.baz.qux.c",
            "foo.baz.wux.b",
            "foo.baz.wux.c",
            "foo.sar.b",
            "foo.sar.c"
        ]
    );
}

#[test]
fn empty_node() {
    assert_eq!(expand_string("foo(|.bar|.baz)").unwrap(), vec!["foo", "foo.bar", "foo.baz"]);
}

#[test]
fn trailing_literal_after_group() {
    assert_eq!(expand_string("(a|b)c").unwrap(), vec!["ac", "bc"]);
}

#[test]
fn unbalanced_open_is_error() {
    assert_eq!(expand_string("foo(bar").unwrap_err(), PatternSyntaxError);
}

#[test]
fn unbalanced_close_is_error() {
    assert_eq!(expand_string("foo)bar").unwrap_err(), PatternSyntaxError);
}

#[test]
fn lone_close_is_error() {
    assert!(expand_string(")").is_err());
}
