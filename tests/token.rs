use lyrical::token::{config_directory, token_from_contents, token_path, Error};

#[test]
fn config_directory_prefers_xdg() {
    assert_eq!(
        config_directory(Some("/x".to_string()), Some("/home/u".to_string())),
        "/x"
    );
    assert_eq!(
        config_directory(None, Some("/home/u".to_string())),
        "/home/u/.config"
    );
    assert_eq!(config_directory(None, None), "/.config");
}

#[test]
fn token_path_below_config() {
    assert_eq!(token_path("/home/u/.config"), "/home/u/.config/lyrical/token");
}

#[test]
fn token_is_first_line() {
    assert_eq!(token_from_contents("abc\ndef", "p").unwrap(), "abc");
    assert_eq!(token_from_contents("abc\r\ndef", "p").unwrap(), "abc");
    assert_eq!(token_from_contents("abc", "p").unwrap(), "abc");
    assert_eq!(token_from_contents("a\rb", "p").unwrap(), "a\rb");
    assert_eq!(token_from_contents("\nx", "p").unwrap(), "");
    assert!(matches!(
        token_from_contents("", "/t"),
        Err(Error::FileEmpty(p)) if p == "/t"
    ));
}
