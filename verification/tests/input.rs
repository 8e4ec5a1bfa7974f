use alfred::input::{key_to_bytes, shortcut, Key, KeyCode, NamedKey, Shortcut};
use alfred::platform::{default_shell, ipc_path, ShellProbe, TargetOs};

#[test]
fn character_keys_send_their_utf8() {
    assert_eq!(key_to_bytes(&Key::Character("a".to_string())), b"a".to_vec());
    assert_eq!(key_to_bytes(&Key::Character("é".to_string())), vec![0xc3, 0xa9]);
}

#[test]
fn named_keys_send_vt_sequences() {
    assert_eq!(key_to_bytes(&Key::Named(NamedKey::Enter)), b"\r".to_vec());
    assert_eq!(key_to_bytes(&Key::Named(NamedKey::Backspace)), b"\x7f".to_vec());
    assert_eq!(key_to_bytes(&Key::Named(NamedKey::ArrowLeft)), b"\x1b[D".to_vec());
    assert_eq!(key_to_bytes(&Key::Named(NamedKey::Delete)), b"\x1b[3~".to_vec());
    assert_eq!(key_to_bytes(&Key::Named(NamedKey::F1)), b"\x1bOP".to_vec());
    assert_eq!(key_to_bytes(&Key::Named(NamedKey::F12)), b"\x1b[24~".to_vec());
    assert!(key_to_bytes(&Key::Named(NamedKey::Other)).is_empty());
    assert!(key_to_bytes(&Key::Other).is_empty());
}

#[test]
fn multiplexer_shortcuts() {
    assert_eq!(shortcut(true, true, KeyCode::KeyE), Some(Shortcut::SplitVertical));
    assert_eq!(shortcut(true, true, KeyCode::KeyO), Some(Shortcut::SplitHorizontal));
    assert_eq!(shortcut(true, true, KeyCode::BracketRight), Some(Shortcut::FocusNextPane));
    assert_eq!(shortcut(true, true, KeyCode::BracketLeft), Some(Shortcut::FocusPrevPane));
    assert_eq!(shortcut(true, true, KeyCode::KeyT), Some(Shortcut::NewWorkspace));
    assert_eq!(shortcut(true, true, KeyCode::KeyW), Some(Shortcut::ClosePane));
    assert_eq!(shortcut(true, true, KeyCode::Tab), Some(Shortcut::PrevWorkspace));
    assert_eq!(shortcut(true, false, KeyCode::Tab), Some(Shortcut::NextWorkspace));
    assert_eq!(shortcut(true, true, KeyCode::Other), None);
    assert_eq!(shortcut(true, false, KeyCode::KeyE), None);
    assert_eq!(shortcut(false, true, KeyCode::Tab), None);
    assert_eq!(shortcut(false, false, KeyCode::KeyW), None);
}

fn probe() -> ShellProbe {
    ShellProbe { pwsh: None, powershell: None, comspec: None, shell: None }
}

#[test]
fn windows_shell_preference() {
    let mut p = probe();
    assert_eq!(default_shell(TargetOs::Windows, &p), "cmd.exe");
    p.comspec = Some("C:\\Windows\\System32\\cmd.exe".to_string());
    assert_eq!(default_shell(TargetOs::Windows, &p), "C:\\Windows\\System32\\cmd.exe");
    p.powershell = Some("ps.exe".to_string());
    assert_eq!(default_shell(TargetOs::Windows, &p), "ps.exe");
    p.pwsh = Some("pwsh.exe".to_string());
    assert_eq!(default_shell(TargetOs::Windows, &p), "pwsh.exe");
}

#[test]
fn linux_and_other_shells() {
    let mut p = probe();
    assert_eq!(default_shell(TargetOs::Linux, &p), "/bin/bash");
    p.shell = Some("/usr/bin/zsh".to_string());
    assert_eq!(default_shell(TargetOs::Linux, &p), "/usr/bin/zsh");
    assert_eq!(default_shell(TargetOs::Other, &p), "sh");
}

#[test]
fn ipc_paths() {
    assert_eq!(ipc_path(TargetOs::Windows), r"\\.\pipe\alfred");
    assert_eq!(ipc_path(TargetOs::Linux), "/tmp/alfred.sock");
    assert_eq!(ipc_path(TargetOs::Other), "/tmp/alfred.sock");
}
