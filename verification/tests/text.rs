use thriller_core::text::{
    decimal_string, lines_of, push_decimal, push_indent, push_indented, push_spaces,
};

#[test]
fn decimal_numerals() {
    assert_eq!(decimal_string(0), "0");
    assert_eq!(decimal_string(7), "7");
    assert_eq!(decimal_string(10), "10");
    assert_eq!(decimal_string(1234567890), "1234567890");
    assert_eq!(decimal_string(usize::MAX), usize::MAX.to_string());
}

#[test]
fn decimal_is_appended() {
    let mut s = String::from("x = ");
    push_decimal(&mut s, 405);
    assert_eq!(s, "x = 405");
}

#[test]
fn blanks_are_appended() {
    let mut s = String::from("a");
    push_spaces(&mut s, 3);
    s.push('b');
    push_indent(&mut s, 2);
    s.push('c');
    push_spaces(&mut s, 0);
    assert_eq!(s, "a   b        c");
}

#[test]
fn lines_are_split_as_by_std() {
    let cases = [
        "",
        "a",
        "a\n",
        "a\nb",
        "a\n\nb\n",
        "\n",
        "\n\n",
        "a\r\nb\r\n",
        "a\rb\n",
        "a\r",
        "a\r\r\n",
        "\r\n",
        "\r",
        "x;\n  y;\r\n\tz",
        "gr\u{fc}n\n\u{4e2d}\u{6587}\r\n",
    ];
    for text in cases {
        let expected: Vec<String> = text.lines().map(|l| l.to_string()).collect();
        assert_eq!(lines_of(text), expected, "lines of {:?}", text);
    }
}

#[test]
fn lines_are_indented() {
    let mut s = String::from(">");
    push_indented(&mut s, &vec![String::from("a"), String::new(), String::from("b")], 1);
    assert_eq!(s, ">    a\n    \n    b\n");
    let mut s = String::new();
    push_indented(&mut s, &lines_of("a\r\n  b"), 2);
    assert_eq!(s, "        a\n          b\n");
    let mut s = String::from("k");
    push_indented(&mut s, &lines_of(""), 3);
    assert_eq!(s, "k");
}
