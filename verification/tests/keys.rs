use ui::sctk::keys::{map_keysym_to_logical, mouse_button, LogicalKey, MouseButton};

#[test]
fn named_keys_map_with_their_keypad_variants() {
    assert_eq!(map_keysym_to_logical(0xff0d, None), LogicalKey::Enter);
    assert_eq!(map_keysym_to_logical(0xff8d, Some("\r")), LogicalKey::Enter);
    assert_eq!(map_keysym_to_logical(0xfe20, None), LogicalKey::Tab);
    assert_eq!(map_keysym_to_logical(0x20, Some(" ")), LogicalKey::Space);
    assert_eq!(map_keysym_to_logical(0xff96, None), LogicalKey::ArrowLeft);
    assert_eq!(map_keysym_to_logical(0xffff, None), LogicalKey::Delete);
    assert_eq!(map_keysym_to_logical(0xfe03, None), LogicalKey::AltGraph);
    assert_eq!(map_keysym_to_logical(0xffe8, None), LogicalKey::Super);
}

#[test]
fn function_keys_count_from_one() {
    assert_eq!(map_keysym_to_logical(0xffbe, None), LogicalKey::F(1));
    assert_eq!(map_keysym_to_logical(0xffc9, None), LogicalKey::F(12));
    assert_eq!(map_keysym_to_logical(0xffe0, None), LogicalKey::F(35));
}

#[test]
fn dead_keys_and_text() {
    assert_eq!(map_keysym_to_logical(0xfe50, Some("`")), LogicalKey::Dead);
    assert_eq!(map_keysym_to_logical(0xfe93, None), LogicalKey::Dead);
    assert_eq!(map_keysym_to_logical(0x61, Some("a")), LogicalKey::Character("a".to_string()));
    assert_eq!(map_keysym_to_logical(0x61, None), LogicalKey::Unknown);
}

#[test]
fn linux_button_codes() {
    assert_eq!(mouse_button(272), MouseButton::Left);
    assert_eq!(mouse_button(273), MouseButton::Right);
    assert_eq!(mouse_button(274), MouseButton::Middle);
    assert_eq!(mouse_button(275), MouseButton::Back);
    assert_eq!(mouse_button(276), MouseButton::Forward);
    assert_eq!(mouse_button(277), MouseButton::Other(277));
    assert_eq!(mouse_button(0x1_0001), MouseButton::Other(1));
}
