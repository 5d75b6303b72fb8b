use supermailer::preview::{
    derive_preview, get_email_first_sentence, get_first_sentence, Content,
    ContentResolutionError,
};
use supermailer::text::{is_whitespace, to_chars};

#[test]
fn preview_takes_first_three_trimmed_lines() {
    let body = "Hello \r\n\r\n World \r\n\r\n Foo \r\n\r\n Bar";
    assert_eq!(derive_preview(body), "HelloWorldFoo");
}

#[test]
fn preview_of_empty_body_is_empty() {
    assert_eq!(derive_preview(""), "");
}

#[test]
fn preview_of_blank_lines_is_empty() {
    assert_eq!(derive_preview(" \r\n\t\r\n\r\n   "), "");
}

#[test]
fn preview_of_fewer_than_three_lines_takes_them_all() {
    assert_eq!(derive_preview("one\r\ntwo"), "onetwo");
    assert_eq!(derive_preview("  only  "), "only");
}

#[test]
fn preview_keeps_inner_white_space() {
    assert_eq!(derive_preview("  a b  \r\n c\td "), "a bc\td");
}

#[test]
fn preview_splits_at_every_line_feed() {
    assert_eq!(derive_preview("A\nB\nC\nD"), "ABC");
    assert_eq!(derive_preview("a\nb\r\nc"), "abc");
    assert_eq!(derive_preview(" a \n\n b \n \n c \n d"), "abc");
}

#[test]
fn a_carriage_return_alone_ends_no_line() {
    assert_eq!(derive_preview("a\rb"), "a\rb");
    assert_eq!(derive_preview("a\rb\nc"), "a\rbc");
    assert_eq!(derive_preview("a\r\r\nb"), "ab");
    assert_eq!(derive_preview("a\r"), "a");
}

#[test]
fn preview_ignores_a_trailing_line_break() {
    assert_eq!(derive_preview("a\r\nb\r\n"), "ab");
    assert_eq!(derive_preview("a\nb\n"), "ab");
    assert_eq!(derive_preview("\r\n"), "");
    assert_eq!(derive_preview("\n"), "");
}

#[test]
fn preview_stops_after_the_third_line() {
    assert_eq!(derive_preview("1\r\n2\r\n3\r\n4\r\n5"), "123");
}

#[test]
fn preview_trims_unicode_white_space() {
    assert_eq!(derive_preview("\u{2003}caf\u{e9}\u{a0}\r\n\u{3000}\r\n\u{feff}x"), "caf\u{e9}\u{feff}x");
}

#[test]
fn preview_is_what_std_computes() {
    let bodies = [
        "",
        "\r\n\r\n",
        "Hello \r\n\r\n World \r\n\r\n Foo \r\n\r\n Bar",
        "A\nB\nC\nD",
        " a \r\n\r b \n\r\n\r\n\r\nc\r\nd",
        "\r",
        "\n",
        "\n\r",
        "\r\r\n\r",
        "x\r\n",
        "x\n\ny\r\n\r\nz\nw",
        "\u{85}x\u{2028}\r\ny\u{1680}",
    ];
    for body in bodies {
        let expected: String = body
            .lines()
            .map(|s| s.trim())
            .filter(|x| !x.is_empty())
            .take(3)
            .collect();
        assert_eq!(derive_preview(body), expected, "{:?}", body);
    }
}

#[test]
fn whitespace_agrees_with_std_on_every_char() {
    let mut code: u32 = 0;
    while code <= 0x10FFFF {
        if let Some(c) = char::from_u32(code) {
            assert_eq!(is_whitespace(c), c.is_whitespace(), "U+{:04X}", code);
        }
        code += 1;
    }
}

#[test]
fn chars_are_listed_in_order() {
    assert_eq!(to_chars("a\u{e9}\u{1F600}"), vec!['a', '\u{e9}', '\u{1F600}']);
    assert_eq!(to_chars(""), Vec::<char>::new());
}

#[test]
fn first_sentence_is_the_preview_of_the_body() {
    let body = "Hello \r\n\r\n World \r\n\r\n Foo \r\n\r\n Bar".to_string();
    assert_eq!(get_first_sentence(Some(body)), Ok("HelloWorldFoo".to_string()));
    assert_eq!(get_first_sentence(Some(String::new())), Ok(String::new()));
}

#[test]
fn first_sentence_fails_without_a_body() {
    assert_eq!(get_first_sentence(None), Err(ContentResolutionError::Unparseable));
}

#[test]
fn missing_object_gives_empty_preview_and_warning() {
    let resolved = get_email_first_sentence(Content::Unavailable);
    assert_eq!(resolved.preview, "");
    assert_eq!(resolved.warning, Some(ContentResolutionError::ObjectUnavailable));
}

#[test]
fn unparseable_object_gives_empty_preview_and_warning() {
    let resolved = get_email_first_sentence(Content::Unparseable);
    assert_eq!(resolved.preview, "");
    assert_eq!(resolved.warning, Some(ContentResolutionError::Unparseable));
}

#[test]
fn fetched_object_gives_its_preview() {
    let resolved = get_email_first_sentence(Content::Body(" one \r\n\r\ntwo\r\nthree\r\nfour".to_string()));
    assert_eq!(resolved.preview, "onetwothree");
    assert_eq!(resolved.warning, None);
}

#[test]
fn an_empty_body_gives_an_empty_preview_without_warning() {
    let resolved = get_email_first_sentence(Content::Body(" \r\n ".to_string()));
    assert_eq!(resolved.preview, "");
    assert_eq!(resolved.warning, None);
}
