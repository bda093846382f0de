use pagepress::page::{
    error_body, mode_from_settings, page_of_index, Mode, Page, PAGE_COUNT, STATUS_INTERNAL_ERROR,
};
use pagepress::template::{normalize_path, template_name};
use pagepress::text::{
    chars_of, contains, digit, has_prefix, matches_at, push_chars, push_decimal,
    push_signed_decimal, push_two_digits, string_of, trim_end_len, white_space,
};

#[test]
fn pages_have_their_templates_and_statuses() {
    assert_eq!(Page::Home.template_name(), "home.html");
    assert_eq!(Page::Messages.template_name(), "messages.html");
    assert_eq!(Page::Timeline.template_name(), "timeline.html");
    assert_eq!(Page::Credits.template_name(), "credits.html");
    assert_eq!(Page::NotFound.template_name(), "404.html");
    assert_eq!(Page::Home.status(), 200);
    assert_eq!(Page::Messages.status(), 200);
    assert_eq!(Page::Timeline.status(), 200);
    assert_eq!(Page::Credits.status(), 200);
    assert_eq!(Page::NotFound.status(), 404);
    assert_eq!(STATUS_INTERNAL_ERROR, 500);
}

#[test]
fn pages_are_served_at_their_paths() {
    assert_eq!(PAGE_COUNT, 5);
    let pages: Vec<Page> = (0..PAGE_COUNT).map(page_of_index).collect();
    assert_eq!(
        pages,
        vec![Page::Home, Page::Messages, Page::Timeline, Page::Credits, Page::NotFound]
    );
    let paths: Vec<&str> = pages.iter().map(|p| p.path()).collect();
    assert_eq!(paths, vec!["/", "/messages", "/timeline", "/credits", "/404"]);
}

#[test]
fn error_body_shows_detail_in_live_mode_only() {
    assert_eq!(error_body(Mode::Live, "disk on fire"), "Something went wrong: disk on fire");
    assert_eq!(error_body(Mode::Live, ""), "Something went wrong: ");
    assert_eq!(error_body(Mode::Frozen, "disk on fire"), "Something went wrong");
    assert_eq!(error_body(Mode::Frozen, ""), "Something went wrong");
}

#[test]
fn mode_follows_the_settings() {
    assert_eq!(mode_from_settings(Some("dev"), None), Some(Mode::Live));
    assert_eq!(mode_from_settings(Some("prod"), None), Some(Mode::Frozen));
    assert_eq!(mode_from_settings(Some("dev"), Some("0")), Some(Mode::Live));
    assert_eq!(mode_from_settings(Some("prod"), Some("1")), Some(Mode::Frozen));
    assert_eq!(mode_from_settings(Some("staging"), None), None);
    assert_eq!(mode_from_settings(Some("staging"), Some("false")), Some(Mode::Frozen));
    assert_eq!(mode_from_settings(None, Some("0")), Some(Mode::Frozen));
    assert_eq!(mode_from_settings(None, Some("none")), Some(Mode::Frozen));
    assert_eq!(mode_from_settings(None, Some("true")), Some(Mode::Live));
    assert_eq!(mode_from_settings(None, Some("")), Some(Mode::Live));
    assert_eq!(mode_from_settings(None, Some("False")), Some(Mode::Live));
    assert_eq!(mode_from_settings(None, None), None);
}

#[test]
fn template_names_are_relative_to_the_root() {
    assert_eq!(template_name("templates/home.html", "templates"), Some("home.html".to_string()));
    assert_eq!(
        template_name("templates\\partials\\nav.html", "templates"),
        Some("partials/nav.html".to_string())
    );
    assert_eq!(
        template_name("templates/partials\\nav.html", "templates"),
        Some("partials/nav.html".to_string())
    );
    assert_eq!(template_name("templates/", "templates"), Some(String::new()));
    assert_eq!(template_name("templates", "templates"), None);
    assert_eq!(template_name("other/home.html", "templates"), None);
    assert_eq!(template_name("./templates/home.html", "templates"), None);
    assert_eq!(template_name("templatesx/home.html", "templates"), None);
    assert_eq!(template_name("", "templates"), None);
    assert_eq!(template_name("/home.html", ""), Some("home.html".to_string()));
}

#[test]
fn backslashes_become_slashes() {
    assert_eq!(string_of(&normalize_path("a\\b/c\\\\d")), "a/b/c//d");
    assert_eq!(string_of(&normalize_path("")), "");
    assert_eq!(string_of(&normalize_path("no slashes")), "no slashes");
}

#[test]
fn text_moves_between_strings_and_characters() {
    assert_eq!(chars_of("aé한"), vec!['a', 'é', '한']);
    assert_eq!(chars_of(""), Vec::<char>::new());
    assert_eq!(string_of(&vec!['x', '∀', 'y']), "x∀y");
    let mut out = "<".to_string();
    push_chars(&mut out, &vec!['a', 'b', 'c'], 1);
    assert_eq!(out, "<bc");
    push_chars(&mut out, &vec!['a', 'b', 'c'], 3);
    assert_eq!(out, "<bc");
}

#[test]
fn white_space_is_what_trimming_removes() {
    for code in 0..=0x10ffffu32 {
        if let Some(c) = char::from_u32(code) {
            assert_eq!(white_space(c), c.is_whitespace());
        }
    }
}

#[test]
fn trimmed_length_matches_trim_end() {
    let cases = ["", " ", "a", "a ", " a", "a b  \n", "\t\r\n", "한 \u{3000}", "x\u{200b}"];
    for s in cases {
        assert_eq!(trim_end_len(&chars_of(s)), s.trim_end().chars().count());
    }
}

#[test]
fn substring_search_matches_contains() {
    let hays = ["", "a", "text/html", "xtext/htmlx", "text/htm", "aaab", "abab", "한글 text"];
    let needles = ["", "a", "b", "ab", "text/html", "aab", "bab", "글 t", "xyz"];
    for hay in hays {
        for needle in needles {
            assert_eq!(contains(&chars_of(hay), &chars_of(needle)), hay.contains(needle));
            assert_eq!(has_prefix(&chars_of(hay), &chars_of(needle)), hay.starts_with(needle));
        }
    }
    assert!(matches_at(&chars_of("hello"), &chars_of("llo"), 2));
    assert!(!matches_at(&chars_of("hello"), &chars_of("llo"), 1));
    assert!(matches_at(&chars_of("hello"), &chars_of(""), 5));
}

#[test]
fn numbers_are_written_in_decimal() {
    for d in 0..10u8 {
        assert_eq!(digit(d), char::from(b'0' + d));
    }
    for n in [0u32, 1, 9, 10, 11, 99, 100, 101, 2023, 4_294_967_295] {
        let mut out = String::new();
        push_decimal(&mut out, n);
        assert_eq!(out, n.to_string());
    }
    for i in [0i32, 1, -1, 10, -10, 2023, -2023, i32::MAX, i32::MIN] {
        let mut out = "y".to_string();
        push_signed_decimal(&mut out, i);
        assert_eq!(out, format!("y{}", i));
    }
    for n in 0..100u8 {
        let mut out = String::new();
        push_two_digits(&mut out, n);
        assert_eq!(out, format!("{:02}", n));
    }
}
