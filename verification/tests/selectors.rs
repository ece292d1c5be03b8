use seess_core::selectors::count_selectors;
use seess_core::whitespace::is_whitespace;

fn chars(text: &str) -> Vec<char> {
    text.chars().collect()
}

fn by_split_and_trim(text: &str) -> usize {
    text.split(',').map(|s| s.trim()).filter(|s| !s.is_empty()).count()
}

#[test]
fn white_space_agrees_with_the_standard_library_on_every_character() {
    let mut code: u32 = 0;
    while code <= 0x10FFFF {
        if let Some(c) = char::from_u32(code) {
            assert_eq!(is_whitespace(c), c.is_whitespace(), "U+{:04X}", code);
        }
        code += 1;
    }
}

#[test]
fn white_space_examples() {
    assert!(is_whitespace(' '));
    assert!(is_whitespace('\t'));
    assert!(is_whitespace('\n'));
    assert!(is_whitespace('\u{000B}'));
    assert!(is_whitespace('\u{000C}'));
    assert!(is_whitespace('\r'));
    assert!(is_whitespace('\u{0085}'));
    assert!(is_whitespace('\u{00A0}'));
    assert!(is_whitespace('\u{1680}'));
    assert!(is_whitespace('\u{2000}'));
    assert!(is_whitespace('\u{200A}'));
    assert!(is_whitespace('\u{2028}'));
    assert!(is_whitespace('\u{2029}'));
    assert!(is_whitespace('\u{202F}'));
    assert!(is_whitespace('\u{205F}'));
    assert!(is_whitespace('\u{3000}'));
    assert!(!is_whitespace('a'));
    assert!(!is_whitespace(','));
    assert!(!is_whitespace('\u{0008}'));
    assert!(!is_whitespace('\u{000E}'));
    assert!(!is_whitespace('\u{180E}'));
    assert!(!is_whitespace('\u{200B}'));
    assert!(!is_whitespace('\u{FEFF}'));
    assert!(!is_whitespace('\u{8d8a}'));
}

#[test]
fn empty_list_has_no_selector() {
    assert_eq!(count_selectors(&chars("")), 0);
}

#[test]
fn blank_list_has_no_selector() {
    assert_eq!(count_selectors(&chars("  \t \n ")), 0);
}

#[test]
fn single_selector() {
    assert_eq!(count_selectors(&chars("body ")), 1);
}

#[test]
fn three_selectors() {
    assert_eq!(count_selectors(&chars("h1, h2, h3 ")), 3);
}

#[test]
fn empty_pieces_are_dropped() {
    assert_eq!(count_selectors(&chars("h1,, h2 ")), 2);
    assert_eq!(count_selectors(&chars(",,,")), 0);
    assert_eq!(count_selectors(&chars(", a ,")), 1);
    assert_eq!(count_selectors(&chars(" , , ")), 0);
}

#[test]
fn white_space_inside_a_selector_does_not_split_it() {
    assert_eq!(count_selectors(&chars("ul li a:hover")), 1);
    assert_eq!(count_selectors(&chars("a b , c d")), 2);
}

#[test]
fn count_agrees_with_split_trim_filter() {
    let texts = [
        "",
        ",",
        "a",
        "a,",
        ",a",
        "a,b",
        " a , b ",
        "a,,b",
        "a, ,b",
        "\u{00a0}a\u{00a0},\u{3000}",
        "@media (max-width: 600px) ",
        "x\u{2028},\u{2029}y,\u{0085}",
        "h1 > h2 + h3 ~ h4, .a.b, #c",
    ];
    for text in texts {
        assert_eq!(count_selectors(&chars(text)), by_split_and_trim(text), "{:?}", text);
    }
}
