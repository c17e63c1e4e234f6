use crazy7s::storage::{Deserialize, FileStore, Serialize};

#[test]
fn strings_are_quoted() {
    assert_eq!("User 1234".to_string().serialize(), "\"User 1234\"");
    assert_eq!("x".serialize(), "\"x\"");
    assert!(String::can_deserialize(&"\"ab\"".to_string()));
    assert!(!String::can_deserialize(&"a".to_string()));
    assert_eq!(String::deserialize("\"Zoë\"".to_string()), "Zoë");
}

#[test]
fn numbers_and_flags() {
    assert_eq!((-42i32).serialize(), "-42");
    assert!(i32::can_deserialize(&"17".to_string()));
    assert!(!i32::can_deserialize(&"x1".to_string()));
    assert_eq!(i32::deserialize("17".to_string()), 17);
    assert_eq!(true.serialize(), "true");
    assert_eq!(false.serialize(), "false");
    assert!(bool::deserialize("true".to_string()));
    assert!(!bool::deserialize("false".to_string()));
    assert!(!bool::can_deserialize(&"yes".to_string()));
}

#[test]
fn file_store_set_get_render() {
    let mut store = FileStore::new();
    assert_eq!(store.get::<String>("username"), Err(()));
    assert_eq!(store.set("username", &"Ann".to_string()), Ok(()));
    assert_eq!(store.set("volume", &3), Ok(()));
    assert_eq!(store.get::<String>("username"), Ok("Ann".to_string()));
    assert_eq!(store.get::<i32>("volume"), Ok(3));
    assert_eq!(store.get::<bool>("volume"), Err(()));
    assert_eq!(store.set("username", &"Bo".to_string()), Ok(()));
    assert_eq!(store.render(), "username = \"Bo\"\nvolume = 3\n");
}

#[test]
fn settings_text_is_read_line_by_line() {
    let text = "username = \"Ann\"\nvolume = 3\n\nno equals sign\n  volume=4=x  \nflag=true";
    let store = FileStore::from_text(text);
    assert_eq!(store.get::<String>("username"), Ok("Ann".to_string()));
    assert_eq!(store.get::<i32>("volume"), Ok(4));
    assert_eq!(store.get::<bool>("flag"), Ok(true));
    assert_eq!(store.entries.len(), 3);
    assert_eq!(store.render(), "username = \"Ann\"\nvolume = 4\nflag = true\n");
}
