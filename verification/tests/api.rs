use uwildmat::{poison, regular, simple, Uwildmat};

fn test_regular(n: usize, value: &str, pattern: &str, expected: bool) {
    let actual = regular(value, pattern);
    assert_eq!(expected, actual, "{}: '{}'/'{}'", n, value, pattern);
}

fn test_poison(n: usize, value: &str, pattern: &str, expected: Uwildmat) {
    let actual = poison(value, pattern);
    assert_eq!(expected, actual, "{}: '{}'/'{}'", n, value, pattern);
}

fn test_simple(n: usize, value: &str, pattern: &str, expected: bool) {
    let actual = simple(value, pattern);
    assert_eq!(expected, actual, "{}: value: {}  pattern: {}", n, value, pattern);
}

#[test]
fn test_inn_suite() {
    test_regular(1, "foo", "foo", true);
    test_regular(2, "foo", "bar", false);
    test_regular(3, "foo.bar", "foo.bar", true);
    test_regular(4, "foo.bar", "foo.*", true);
    test_regular(5, "foo.bar", "*.bar", true);
    test_regular(6, "foo.bar", "*.baz", false);
    test_regular(7, "foo.bar", "foo.?ar", true);
    test_regular(8, "foo.bar", "foo.?r", false);
    test_regular(9, "foo.bar", "foo.[a-c]ar", true);
    test_regular(10, "foo.bar", "foo.[^a-c]ar", false);
    test_regular(11, "foo.bar", "baz.*,foo.*", true);
    test_regular(12, "foo.bar", "foo.*,!foo.bar", false);
    test_regular(13, "foo.bar", "!foo.bar,foo.*", true);
    test_regular(14, "foo.bar", "!foo.bar", false);
    test_regular(15, "foo.baz", "!foo.bar", false);
    test_regular(16, "foo.bar", "@foo.bar", false);
    test_regular(17, "@foo.bar", "@foo.bar", true);
    test_regular(18, "abc,", "abc\\,", true);
    test_regular(19, "abc,", "abc", false);
    test_regular(20, "", "", true);
    test_regular(21, "a,b", "a[,]b", true);
    test_regular(22, "b", "[a],b", true);

    test_poison(1, "", "", Uwildmat::Poison);
    test_poison(2, "", "a", Uwildmat::Fail);
    test_poison(3, "x", "!x,x", Uwildmat::Match);
    test_poison(4, "x", "x,!x", Uwildmat::Fail);
    test_poison(5, "x", "x,@x", Uwildmat::Poison);
    test_poison(6, "x", "@x,x", Uwildmat::Match);
    test_poison(7, "y", "@x", Uwildmat::Fail);
    test_poison(8, "x", "@*", Uwildmat::Poison);
    test_poison(9, "x", "*", Uwildmat::Match);
    test_poison(10, "x", "*,@y", Uwildmat::Match);

    test_simple(1, "a", "[a-d]", true);
    test_simple(2, "A", "[a-d]", false);
    test_simple(3, ",", "*,", true);
    test_simple(4, "", "", true);
    test_simple(5, "]", "[]]", true);
    test_simple(6, "c", "[a-d]", true);
    test_simple(7, "e", "[a-d]", false);
    test_simple(8, "c", "[^a-d]", false);
    test_simple(9, "!a,b", "!a,b", true);
    test_simple(10, "@", "@", true);
}

#[test]
fn regular_comma_processing() {
    assert_eq!(false, regular(",", ""));
    assert_eq!(false, regular(",", ","));
    assert_eq!(false, regular(",", ",,"));
    assert_eq!(false, regular(",", ",,,"));
    assert_eq!(true, regular(",", "\\,"));
    assert_eq!(true, regular(",", "\\,,"));
    assert_eq!(true, regular(",", ",\\,"));
    assert_eq!(true, regular(",", "\\,,\\,"));
    assert_eq!(true, regular(",", ",\\,,"));
}

#[test]
fn simple_comma_processing() {
    assert_eq!(false, simple(",", ""));
    assert_eq!(true, simple(",", ","));
    assert_eq!(false, simple(",", ",,"));
    assert_eq!(true, simple(",", "*,"));
    assert_eq!(true, simple(",", ",*"));
    assert_eq!(true, simple(",", "*"));
    assert_eq!(true, simple(",", "**"));
    assert_eq!(true, simple(",", "\\,"));
    assert_eq!(true, simple(",", "*\\,"));
    assert_eq!(true, simple(",", "\\,*"));
}

#[test]
fn simple_brackets() {
    assert_eq!(true, simple("a", "[a-d]"));
    assert_eq!(true, simple("b", "[a-d]"));
    assert_eq!(true, simple("c", "[a-d]"));
    assert_eq!(true, simple("d", "[a-d]"));
    assert_eq!(true, simple("]", "[]]"));
    assert_eq!(true, simple("]*", "[]]?"));
    assert_eq!(true, simple("]*", "[]]*"));
    assert_eq!(true, simple("a", "[^]]"));
    assert_eq!(true, simple("a", "[^]-]"));
    assert_eq!(true, simple("c", "[^]-b]"));
    assert_eq!(true, simple("a", "[^]]*"));

    assert_eq!(false, simple("e", "[a-d]"));
    assert_eq!(false, simple("A", "[a-d]"));
    assert_eq!(false, simple("c", "[^a-f]"));
    assert_eq!(false, simple("-", "[^-]"));
    assert_eq!(false, simple("-", "[^]-]"));
    assert_eq!(false, simple("-", "[^-]]"));
    assert_eq!(false, simple("]", "[^]-]"));
    assert_eq!(false, simple("]", "[^-]]"));
}

#[test]
fn regular_misc() {
    assert_eq!(true, regular("", ""));
    assert_eq!(true, regular("a", "a"));
    assert_eq!(true, regular("abc", "abc"));
    assert_eq!(true, regular("abc,", "abc\\,"));
    assert_eq!(true, regular("abc,", "abc\\,,foo"));

    assert_eq!(false, regular("abc", ""));
    assert_eq!(false, regular("abc", "a"));
    assert_eq!(false, regular("abc", "ab"));
    assert_eq!(false, regular("abc", "aaa"));
    assert_eq!(false, regular("abc", "bbb"));
    assert_eq!(false, regular("abc", "ccc"));
    assert_eq!(false, regular("abc,", "abc"));
    assert_eq!(false, regular("abc,", "abc\\,foo,yeah"));

    assert_eq!(true, regular("", "*"));
    assert_eq!(true, regular("*", "*"));
    assert_eq!(true, regular("*", "\\*"));
    assert_eq!(true, regular("foo", "*"));
    assert_eq!(true, regular("foo", "foo*"));
    assert_eq!(true, regular("foo", "*foo"));
    assert_eq!(true, regular("foo", "*foo*"));
    assert_eq!(true, regular("foo*", "*\\*"));
    assert_eq!(true, regular("foo*", "*\\**"));
    assert_eq!(true, regular("foobar", "*foo*"));
    assert_eq!(true, regular("foobar", "foo*"));
    assert_eq!(true, regular("foobar", "*bar"));
    assert_eq!(true, regular("foobar", "*ooba*"));

    assert_eq!(true, regular("hello world", "hel*rld"));
    assert_eq!(true, regular("hello world", "[^]]ello*"));
    assert_eq!(true, regular("hello world", "[^]-]ello*"));
    assert_eq!(true, regular("hello world", "hell[^]-]*"));
}

#[test]
fn poison_misc() {
    assert_eq!(Uwildmat::Poison, poison("", ""));
    assert_eq!(Uwildmat::Fail, poison("", "a"));
}

#[test]
fn regular_utf8() {
    assert_eq!(true, regular("†", "?"));
    assert_eq!(true, regular("ᚻ", "[\u{16BA}-\u{16BC}]"));
    assert_eq!(true, regular("╳", "*"));
    assert_eq!(true, regular("ข้", "??"));
}

#[test]
fn into_bool() {
    assert_eq!(false, Uwildmat::Fail.into());
    assert_eq!(true, Uwildmat::Match.into());
    assert_eq!(false, Uwildmat::Poison.into());
}
