use pagepress::charset::{block_at, script_of, Charset, Script, BLOCK_COUNT};
use std::collections::BTreeSet;

fn set_of(s: &str) -> BTreeSet<char> {
    s.chars().collect()
}

#[test]
fn hangul_syllables_are_korean() {
    assert_eq!(script_of('\u{ac00}'), Some(Script::Korean));
    assert_eq!(script_of('한'), Some(Script::Korean));
    assert_eq!(script_of('\u{d7af}'), Some(Script::Korean));
    assert_eq!(script_of('\u{abff}'), None);
    assert_eq!(script_of('\u{d7b0}'), None);
}

#[test]
fn kana_ideographs_and_fullwidth_forms_are_japanese() {
    assert_eq!(script_of('\u{3000}'), Some(Script::Japanese));
    assert_eq!(script_of('あ'), Some(Script::Japanese));
    assert_eq!(script_of('カ'), Some(Script::Japanese));
    assert_eq!(script_of('漢'), Some(Script::Japanese));
    assert_eq!(script_of('\u{9fff}'), Some(Script::Japanese));
    assert_eq!(script_of('\u{a000}'), None);
    assert_eq!(script_of('\u{2fff}'), None);
    assert_eq!(script_of('\u{ff00}'), Some(Script::Japanese));
    assert_eq!(script_of('Ａ'), Some(Script::Japanese));
    assert_eq!(script_of('\u{ffef}'), Some(Script::Japanese));
    assert_eq!(script_of('\u{fff0}'), None);
    assert_eq!(script_of('\u{feff}'), None);
}

#[test]
fn mathematical_operators_are_japanese() {
    assert_eq!(script_of('\u{2200}'), Some(Script::Japanese));
    assert_eq!(script_of('∀'), Some(Script::Japanese));
    assert_eq!(script_of('\u{22ff}'), Some(Script::Japanese));
    assert_eq!(script_of('\u{21ff}'), None);
    assert_eq!(script_of('\u{2300}'), None);
}

#[test]
fn other_characters_have_no_script() {
    assert_eq!(script_of('a'), None);
    assert_eq!(script_of(' '), None);
    assert_eq!(script_of('é'), None);
    assert_eq!(script_of('\u{1f600}'), None);
    assert_eq!(script_of('\u{10ffff}'), None);
    assert_eq!(script_of('\0'), None);
}

#[test]
fn block_table_has_four_rows_that_do_not_overlap() {
    assert_eq!(BLOCK_COUNT, 4);
    for i in 0..BLOCK_COUNT {
        let a = block_at(i);
        assert!(a.first <= a.last);
        for j in (i + 1)..BLOCK_COUNT {
            let b = block_at(j);
            assert!(a.last < b.first || b.last < a.first);
        }
    }
    assert_eq!(block_at(0).script, Script::Korean);
    assert_eq!(block_at(3).first, 0x2200);
}

#[test]
fn charset_holds_each_character_once() {
    let mut set = Charset::new();
    assert!(!set.contains('a'));
    set.insert('a');
    set.insert('a');
    set.extend_from_str("banana 한한");
    assert!(set.contains('a'));
    assert!(set.contains('b'));
    assert!(set.contains('한'));
    assert!(set.contains(' '));
    assert!(!set.contains('c'));
    let subsets = set.subsets();
    assert_eq!(subsets.korean, "한");
    assert_eq!(subsets.japanese, "");
}

#[test]
fn subsets_split_the_set_by_script() {
    let mut set = Charset::new();
    set.extend_from_str("Hello, 세계! こんにちは 世界 ∀x ｶﾞ");
    set.extend_from_str("안녕 세상");
    let subsets = set.subsets();
    assert_eq!(set_of(&subsets.korean), set_of("세계안녕상"));
    assert_eq!(set_of(&subsets.japanese), set_of("こんにちは世界∀ｶﾞ"));
    assert_eq!(subsets.korean.chars().count(), 5);
    assert_eq!(subsets.japanese.chars().count(), 10);
}

#[test]
fn subsets_are_disjoint_and_free_of_repeats() {
    let mut set = Charset::new();
    set.extend_from_str("가나다 あいう 가나다 あいう ∑∑ abc 가");
    let subsets = set.subsets();
    let korean = set_of(&subsets.korean);
    let japanese = set_of(&subsets.japanese);
    assert!(korean.is_disjoint(&japanese));
    assert_eq!(korean.len(), subsets.korean.chars().count());
    assert_eq!(japanese.len(), subsets.japanese.chars().count());
    for c in korean.iter().chain(japanese.iter()) {
        assert!(set.contains(*c));
    }
}

#[test]
fn empty_charset_has_empty_subsets() {
    let set = Charset::new();
    let subsets = set.subsets();
    assert_eq!(subsets.korean, "");
    assert_eq!(subsets.japanese, "");
}
