use rustboard::sounds::{is_sound_file, sound_key, SoundBank};
use rustboard::stream::PlayBuf;

fn pb(v: i16) -> PlayBuf {
    PlayBuf { target: String::new(), buf: vec![v] }
}

#[test]
fn sound_keys_are_slugs() {
    assert_eq!(sound_key("hello world"), "hello-world");
    assert_eq!(sound_key("BEEG BEEG YOSHI.mp3"), "beeg-beeg-yoshi-mp3");
    assert_eq!(sound_key("Æúű--cool?.ogg"), "aeuu-cool-ogg");
    assert_eq!(sound_key("  __x__  "), "x");
}

#[test]
fn placeholder_is_no_sound() {
    assert!(!is_sound_file("__placeholder__"));
    assert!(is_sound_file("__placeholder__.wav"));
    assert!(is_sound_file("airhorn.mp3"));
}

#[test]
fn bank_finds_what_was_put() {
    let mut bank = SoundBank::new();
    assert_eq!(bank.len(), 0);
    assert!(bank.get("airhorn").is_none());
    bank.insert("airhorn".to_string(), pb(1));
    bank.insert("bruh".to_string(), pb(2));
    assert_eq!(bank.len(), 2);
    assert_eq!(bank.get("airhorn").unwrap().buf, vec![1]);
    assert_eq!(bank.get("bruh").unwrap().buf, vec![2]);
    assert!(bank.get("nope").is_none());
}

#[test]
fn bank_replaces_under_the_same_key() {
    let mut bank = SoundBank::new();
    bank.insert("a".to_string(), pb(1));
    bank.insert("b".to_string(), pb(2));
    bank.insert("a".to_string(), pb(3));
    assert_eq!(bank.len(), 2);
    assert_eq!(bank.get("a").unwrap().buf, vec![3]);
    assert_eq!(bank.get("b").unwrap().buf, vec![2]);
    let mut keys = bank.keys();
    keys.sort();
    assert_eq!(keys, vec!["a".to_string(), "b".to_string()]);
}
