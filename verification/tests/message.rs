use pagepress::charset::Charset;
use pagepress::decal::ValidationError;
use pagepress::message::{derive_message, derive_messages, MessageInput, MessageMedia, Thumbnail};
use std::collections::BTreeSet;

fn input(id: &str, sender: &str, text: &str) -> MessageInput {
    MessageInput {
        id: id.to_string(),
        sender_name: sender.to_string(),
        sender_title: None,
        media: None,
        message: text.to_string(),
    }
}

fn set_of(s: &str) -> BTreeSet<char> {
    s.chars().collect()
}

#[test]
fn derived_message_keeps_every_field() {
    let media = MessageMedia::Image {
        path: "a.png".to_string(),
        width: 640,
        height: 480,
        thumbnail: Some(Thumbnail { path: "a_small.png".to_string(), width: 64, height: 48 }),
    };
    let given = MessageInput {
        id: "00000000000000000000000000000008".to_string(),
        sender_name: "보낸이".to_string(),
        sender_title: Some("Fan".to_string()),
        media: Some(media.clone()),
        message: "ありがとう!".to_string(),
    };
    let mut charset = Charset::new();
    let message = derive_message(given.clone(), &mut charset).unwrap();
    assert_eq!(message.id, given.id);
    assert_eq!(message.sender_name, given.sender_name);
    assert_eq!(message.sender_title, given.sender_title);
    assert_eq!(message.media, Some(media));
    assert_eq!(message.message, given.message);
    assert_eq!(message.decal_variant, 3);
    for c in "보낸이ありがとう!".chars() {
        assert!(charset.contains(c));
    }
    assert!(!charset.contains('F'));
}

#[test]
fn failed_derivation_leaves_the_charset_alone() {
    let mut charset = Charset::new();
    charset.insert('x');
    let r = derive_message(input("xyz", "가", "나"), &mut charset);
    assert_eq!(r, Err(ValidationError::OddLength));
    assert!(charset.contains('x'));
    assert!(!charset.contains('가'));
    assert!(!charset.contains('나'));
}

#[test]
fn special_sender_needs_no_valid_id() {
    let mut charset = Charset::new();
    let message = derive_message(input("", "Mikururun", "hi"), &mut charset).unwrap();
    assert_eq!(message.decal_variant, 10);
    assert!(charset.contains('M'));
    assert!(charset.contains('h'));
}

#[test]
fn batch_is_derived_in_order() {
    let board = derive_messages(vec![
        input("00000000000000000000000000000001", "한", "あ"),
        input("00000000000000000000000000000002", "Mikururun", "글"),
        input("00000000000000000000000000000003", "c", "∀ あ"),
    ])
    .unwrap();
    assert_eq!(board.messages.len(), 3);
    assert_eq!(board.messages[0].decal_variant, 1);
    assert_eq!(board.messages[1].decal_variant, 10);
    assert_eq!(board.messages[2].decal_variant, 3);
    assert_eq!(board.messages[0].sender_name, "한");
    assert_eq!(board.messages[2].message, "∀ あ");
    assert_eq!(set_of(&board.subsets.korean), set_of("한글"));
    assert_eq!(set_of(&board.subsets.japanese), set_of("あ∀"));
    assert_eq!(board.subsets.japanese.chars().count(), 2);
}

#[test]
fn batch_fails_on_the_first_bad_id() {
    let r = derive_messages(vec![
        input("00000000000000000000000000000001", "a", "b"),
        input("0000000000000000000000000000000q", "a", "b"),
        input("123", "a", "b"),
    ]);
    assert_eq!(r, Err(ValidationError::InvalidHexCharacter { c: 'q', index: 31 }));
}

#[test]
fn empty_batch_gives_an_empty_board() {
    let board = derive_messages(Vec::new()).unwrap();
    assert!(board.messages.is_empty());
    assert_eq!(board.subsets.korean, "");
    assert_eq!(board.subsets.japanese, "");
}

#[test]
fn batch_subsets_never_share_a_character() {
    let board = derive_messages(vec![
        input("00000000000000000000000000000001", "가나 あい", "가 ∑ ｱ"),
        input("00000000000000000000000000000002", "あ 가", "다 う"),
    ])
    .unwrap();
    let korean = set_of(&board.subsets.korean);
    let japanese = set_of(&board.subsets.japanese);
    assert!(korean.is_disjoint(&japanese));
    assert_eq!(korean, set_of("가나다"));
    assert_eq!(japanese, set_of("あいう∑ｱ"));
    assert_eq!(board.subsets.korean.chars().count(), 3);
    assert_eq!(board.subsets.japanese.chars().count(), 5);
}
