use jx3sim::compact::{compact_len, format_macro_compact};
use jx3sim::text::{extract_icon_id, parse_u32, sanitize_loop_name, sanitize_profile_name, trim};

#[test]
fn trim_removes_outer_white_space() {
    assert_eq!(trim("  a b \n"), "a b");
    assert_eq!(trim("\t\u{3000}x\u{3000}"), "x");
    assert_eq!(trim("   "), "");
}

#[test]
fn profile_names_are_sanitized() {
    assert_eq!(sanitize_profile_name("  我的 配置_1 "), Some("我的 配置_1".to_string()));
    assert_eq!(sanitize_profile_name("a/b\\c"), Some("abc".to_string()));
    assert_eq!(sanitize_profile_name("   "), None);
    assert_eq!(sanitize_profile_name("***"), None);
    assert_eq!(sanitize_profile_name("../x"), Some("x".to_string()));
}

#[test]
fn loop_names_are_sanitized() {
    assert_eq!(sanitize_loop_name("..a.b.."), "a.b");
    assert_eq!(sanitize_loop_name("循环 1/2"), "循环 12");
    assert_eq!(sanitize_loop_name("///"), "loop");
    assert_eq!(sanitize_loop_name(" . "), "loop");
}

#[test]
fn parse_u32_follows_str_parse() {
    let p = |s: &str| parse_u32(&s.chars().collect());
    assert_eq!(p("1234"), Some(1234));
    assert_eq!(p("+7"), Some(7));
    assert_eq!(p("4294967295"), Some(u32::MAX));
    assert_eq!(p("4294967296"), None);
    assert_eq!(p(""), None);
    assert_eq!(p("+"), None);
    assert_eq!(p("-1"), None);
    assert_eq!(p("12a"), None);
    assert_eq!(p("007"), Some(7));
}

#[test]
fn icon_ids_are_read_from_icon_urls() {
    assert_eq!(extract_icon_id("https://icon.jx3box.com/icon/1234.png"), Some(1234));
    assert_eq!(extract_icon_id("https://icon.jx3box.com/icon/.png"), None);
    assert_eq!(extract_icon_id("https://icon.jx3box.com/icon/12.jpg"), None);
    assert_eq!(extract_icon_id("http://icon.jx3box.com/icon/12.png"), None);
    assert_eq!(extract_icon_id("https://icon.jx3box.com/icon/x1.png"), None);
}

#[test]
fn compact_form_drops_brackets_and_whole_number_tails() {
    assert_eq!(format_macro_compact("/cast [rage>10.0] 盾击"), "/cast rage>10 盾击");
    assert_eq!(format_macro_compact("[bufftime:x<10.05]"), "bufftime:x<10.05");
    assert_eq!(format_macro_compact("a.0"), "a.0");
    assert_eq!(format_macro_compact("1.0.0"), "1");
    assert_eq!(format_macro_compact(""), "");
}

#[test]
fn compact_length_counts_the_compact_form() {
    for s in ["/cast [rage>10.0] 盾击", "[a]", "3.0", "10.01", "x"] {
        assert_eq!(compact_len(s), format_macro_compact(s).chars().count());
    }
    assert_eq!(compact_len("/cast [rage>10.0] 盾击"), 16);
}

#[test]
fn trim_removes_every_unicode_white_space_kind() {
    assert_eq!(trim("\u{85}\u{a0}\u{1680}\u{2000}\u{200a}\u{2028}\u{2029}\u{202f}\u{205f}x\u{b}\u{c}\r"), "x");
    // U+200B is not white space.
    assert_eq!(trim("\u{200b}x"), "\u{200b}x");
}

#[test]
fn sanitisers_take_the_letters_and_digits_as_a_list() {
    assert_eq!(jx3sim::text::sanitize_profile_name_with(" ab!c ", &vec!['a', 'c']), Some("ac".to_string()));
    assert_eq!(jx3sim::text::sanitize_profile_name_with("ab", &vec![]), None);
    assert_eq!(jx3sim::text::sanitize_loop_name_with("x.y", &vec![]), "loop");
    assert_eq!(jx3sim::text::sanitize_loop_name_with("x.y", &vec!['x', 'y']), "x.y");
}
