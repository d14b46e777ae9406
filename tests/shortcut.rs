use icon_engine::shortcut::{hotkey_to_string, show_command_to_string};

#[test]
fn hotkeys_in_readable_form() {
    assert_eq!(hotkey_to_string(0), None);
    assert_eq!(hotkey_to_string(0x0341).as_deref(), Some("Shift+Ctrl+A"));
    assert_eq!(hotkey_to_string(0x0474).as_deref(), Some("Alt+F5"));
    assert_eq!(hotkey_to_string(0x0787).as_deref(), Some("Shift+Ctrl+Alt+F24"));
    assert_eq!(hotkey_to_string(0x0039).as_deref(), Some("9"));
    assert_eq!(hotkey_to_string(0x017B).as_deref(), Some("Shift+F12"));
    assert_eq!(hotkey_to_string(0x0120).as_deref(), Some("Shift"));
    assert_eq!(hotkey_to_string(0x0020), None);
    assert_eq!(hotkey_to_string(0x0861), None);
}

#[test]
fn show_commands_in_readable_form() {
    assert_eq!(show_command_to_string(1), "正常窗口");
    assert_eq!(show_command_to_string(2), "最小化");
    assert_eq!(show_command_to_string(3), "最大化");
    assert_eq!(show_command_to_string(7), "最小化无激活");
    assert_eq!(show_command_to_string(5), "未知(5)");
    assert_eq!(show_command_to_string(-12), "未知(-12)");
    assert_eq!(show_command_to_string(i32::MIN), "未知(-2147483648)");
    assert_eq!(show_command_to_string(0), "未知(0)");
}
