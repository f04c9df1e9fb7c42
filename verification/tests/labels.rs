use teleconsole::dialogs::{decimal_string, display_count, display_name, DialogsSelected};
use teleconsole::ecs::state::{into_key, Key};
use teleconsole::systems::login::LoginState;

#[test]
fn count_in_brackets() {
    assert_eq!(display_count(String::new()), "");
    assert_eq!(display_count("7".to_string()), "(7)");
    assert_eq!(display_count("120".to_string()), "(120)");
}

#[test]
fn decimal_digits() {
    assert_eq!(decimal_string(0), "0");
    assert_eq!(decimal_string(9), "9");
    assert_eq!(decimal_string(10), "10");
    assert_eq!(decimal_string(4096), "4096");
    assert_eq!(decimal_string(u32::MAX), "4294967295");
}

#[test]
fn short_name_is_kept() {
    assert_eq!(display_name("Alice", 10, 3), "Alice(3)");
    assert_eq!(display_name("Alice", 10, 0), "Alice");
    assert_eq!(display_name("Alice", 5, -4), "Alice");
    assert_eq!(display_name("", 0, 0), "");
}

#[test]
fn long_name_is_cut() {
    assert_eq!(display_name("Alexander the Great", 10, 12), "Alexande..(12)");
    assert_eq!(display_name("Alexander", 8, 0), "Alexande..");
    assert_eq!(display_name("Alice", 1, 5), "..(5)");
}

#[test]
fn name_is_measured_in_bytes_and_cut_in_characters() {
    // six characters, twelve bytes
    assert_eq!(display_name("Привет", 8, 0), "Привет..");
    assert_eq!(display_name("Привет", 4, 0), "Прив..");
    assert_eq!(display_name("Привет", 12, 0), "Привет");
}

#[test]
fn selection_is_a_chat_id() {
    let s = DialogsSelected { selected: -100 };
    assert_eq!(s, DialogsSelected { selected: -100 });
}

#[test]
fn login_states_have_keys_of_their_own() {
    assert_eq!(into_key(LoginState::PreLogin), 0);
    assert_eq!(into_key(LoginState::EndLogin), 1);
    assert!(Key::eq(&LoginState::PreLogin, &LoginState::PreLogin));
    assert!(!Key::eq(&LoginState::PreLogin, &LoginState::EndLogin));
    assert_eq!(Key::hash(&LoginState::EndLogin), 1);
}
