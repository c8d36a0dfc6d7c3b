use cobble::address::parse_address;
use cobble::touch::{TouchOwners, TouchTarget};
use cobble::ui::{
    apply_typing, main_menu_action, multiplayer_decision, multiplayer_update, picker_action, text_field_update, Action,
    PendingInput,
};

#[test]
fn address_with_port_splits_at_the_last_colon() {
    assert_eq!(parse_address("example.com:25566"), ("example.com".to_string(), 25566));
    assert_eq!(parse_address("::1:7000"), ("::1".to_string(), 7000));
    assert_eq!(parse_address("host:+80"), ("host".to_string(), 80));
}

#[test]
fn address_without_a_valid_port_uses_the_default() {
    assert_eq!(parse_address("localhost"), ("localhost".to_string(), 25565));
    assert_eq!(parse_address("host:notaport"), ("host:notaport".to_string(), 25565));
    assert_eq!(parse_address("host:70000"), ("host:70000".to_string(), 25565));
    assert_eq!(parse_address("host:"), ("host:".to_string(), 25565));
    assert_eq!(parse_address("host:-1"), ("host:-1".to_string(), 25565));
    assert_eq!(parse_address("host:65535"), ("host".to_string(), 65535));
}

#[test]
fn text_field_accepts_printable_typed_text() {
    let mut value = String::new();
    apply_typing(&mut value, "localhost", false);
    assert_eq!(value, "localhost");
    apply_typing(&mut value, "\t:25565\u{e9}", false);
    assert_eq!(value, "localhost:25565");
}

#[test]
fn backspace_removes_last_char_only_while_focused() {
    let mut value = "abc".to_string();
    apply_typing(&mut value, "", true);
    assert_eq!(value, "ab");
    let mut empty = String::new();
    apply_typing(&mut empty, "", true);
    assert_eq!(empty, "");
}

#[test]
fn multiplayer_connect_requires_a_non_empty_host() {
    let action = multiplayer_decision(String::new(), "Steve".to_string(), false, true, false, false);
    assert!(matches!(action, Action::Nothing), "empty host should not connect");

    let action = multiplayer_decision("localhost".to_string(), "Steve".to_string(), false, true, false, false);
    match action {
        Action::Connect { host, username } => {
            assert_eq!(host, "localhost");
            assert_eq!(username, "Steve");
        },
        _ => panic!("expected Connect"),
    }
}

#[test]
fn multiplayer_back_button_returns_to_menu() {
    let action = multiplayer_decision("localhost".to_string(), String::new(), true, true, false, false);
    assert!(matches!(action, Action::BackToMenu));
}

#[test]
fn enter_in_a_field_connects_with_the_default_username() {
    match multiplayer_decision("localhost".to_string(), String::new(), false, false, false, true) {
        Action::Connect { username, .. } => assert_eq!(username, "Cobble"),
        _ => panic!("expected Connect"),
    }
    assert!(matches!(
        multiplayer_decision("localhost".to_string(), String::new(), false, false, false, false),
        Action::Nothing
    ));
}

#[test]
fn each_main_menu_button_yields_its_own_action() {
    assert!(matches!(main_menu_action([true, false, false, false]), Action::StartSingleplayer));
    assert!(matches!(main_menu_action([false, true, false, false]), Action::GoToMultiplayer));
    assert!(matches!(main_menu_action([false, false, true, false]), Action::GoToTexturePacks));
    assert!(matches!(main_menu_action([false, false, false, true]), Action::Quit));
}

#[test]
fn clicking_empty_space_on_main_menu_does_nothing() {
    assert!(matches!(main_menu_action([false; 4]), Action::Nothing));
}

#[test]
fn selecting_a_result_reports_its_index() {
    match picker_action(false, &[false, true, false]) {
        Action::SelectTexturePack { index } => assert_eq!(index, 1),
        _ => panic!("expected SelectTexturePack"),
    }
}

#[test]
fn picker_back_button_works_regardless_of_status() {
    assert!(matches!(picker_action(true, &[]), Action::BackToMenu));
    assert!(matches!(picker_action(true, &[true]), Action::BackToMenu));
    assert!(matches!(picker_action(false, &[]), Action::Nothing));
}

#[test]
fn controller_routes_joystick_button_and_look_touches_independently() {
    let mut owners = TouchOwners::new();
    assert_eq!(owners.touch_down(1, true, false, false, false), TouchTarget::Joystick);
    assert_eq!(owners.touch_down(2, false, true, false, false), TouchTarget::Jump);
    assert_eq!(owners.touch_down(3, false, false, false, false), TouchTarget::Look);
    assert_eq!(owners.jump, Some(2));
    owners.touch_up(2);
    assert_eq!(owners.jump, None);
    assert_eq!(owners.joystick, Some(1));
    assert_eq!(owners.look, Some(3));
}

#[test]
fn joystick_ignores_a_second_touch_while_one_is_active() {
    let mut owners = TouchOwners::new();
    assert_eq!(owners.touch_down(1, true, false, false, false), TouchTarget::Joystick);
    assert_eq!(owners.touch_down(2, true, false, false, false), TouchTarget::Look);
    assert_eq!(owners.touch_down(4, true, false, false, false), TouchTarget::Unclaimed);
    assert_eq!(owners.joystick, Some(1));
}

#[test]
fn multiplayer_fields_are_trimmed_and_a_blank_host_disables_connect() {
    match multiplayer_update("  localhost ", " Alex\t", false, true, false, false) {
        Action::Connect { host, username } => {
            assert_eq!(host, "localhost");
            assert_eq!(username, "Alex");
        },
        _ => panic!("expected Connect"),
    }
    assert!(matches!(multiplayer_update("   ", "Alex", false, true, true, true), Action::Nothing));
    match multiplayer_update("host", "   ", false, false, true, false) {
        Action::Connect { username, .. } => assert_eq!(username, "Cobble"),
        _ => panic!("expected Connect"),
    }
}

#[test]
fn text_field_focuses_on_click_and_accepts_typed_text() {
    let mut value = String::new();
    let mut focused = false;
    text_field_update(&mut value, &mut focused, true, true, "", false, false);
    assert!(focused);
    text_field_update(&mut value, &mut focused, false, false, "localhost", false, false);
    assert_eq!(value, "localhost");
}

#[test]
fn text_field_ignores_typing_while_unfocused() {
    let mut value = String::new();
    let mut focused = false;
    text_field_update(&mut value, &mut focused, false, false, "nope", false, false);
    assert_eq!(value, "");
}

#[test]
fn enter_is_reported_only_while_focused() {
    let mut value = String::new();
    let mut focused = false;
    assert!(!text_field_update(&mut value, &mut focused, false, false, "", false, true));
    focused = true;
    assert!(text_field_update(&mut value, &mut focused, false, false, "", false, true));
}

#[test]
fn clicking_outside_defocuses() {
    let mut value = String::new();
    let mut focused = true;
    text_field_update(&mut value, &mut focused, true, false, "", false, false);
    assert!(!focused);
}

#[test]
fn fields_are_trimmed_of_unicode_whitespace_like_str_trim() {
    let host = "\u{3000}\u{a0} play.example.org\u{2028}\r\n";
    let name = "\u{85}Steve \u{200a}x\u{205f}";
    match multiplayer_update(host, name, false, true, false, false) {
        Action::Connect { host: h, username: u } => {
            assert_eq!(h, host.trim());
            assert_eq!(h, "play.example.org");
            assert_eq!(u, name.trim());
            assert_eq!(u, "Steve \u{200a}x");
        },
        _ => panic!("expected Connect"),
    }
    // A zero-width space is not whitespace, so it stays.
    match multiplayer_update("\u{200b}", "a", false, false, true, false) {
        Action::Connect { host: h, .. } => assert_eq!(h, "\u{200b}"),
        _ => panic!("expected Connect"),
    }
}

#[test]
fn taking_pending_input_hands_it_out_and_clears_it() {
    let mut pending = PendingInput::new();
    pending.clicked = true;
    pending.text_input.push_str("ab");
    pending.enter = true;
    let snapshot = pending.take();
    assert!(snapshot.clicked && snapshot.enter && !snapshot.backspace);
    assert_eq!(snapshot.text_input, "ab");
    assert!(!pending.clicked && !pending.enter && !pending.backspace);
    assert!(pending.text_input.is_empty());
    let again = pending.take();
    assert!(!again.clicked && again.text_input.is_empty());
}
