use vstd::prelude::*;

verus! {

// ── Keys ──────────────────────────────────────────────────────────────────────

/// The named (non-character) keys the terminal translates.
#[derive(Clone, Copy, Debug, PartialEq, Eq, Structural)]
pub enum NamedKey {
    Enter,
    Backspace,
    Escape,
    Tab,
    ArrowUp,
    ArrowDown,
    ArrowRight,
    ArrowLeft,
    Home,
    End,
    Delete,
    PageUp,
    PageDown,
    F1,
    F2,
    F3,
    F4,
    F5,
    F6,
    F7,
    F8,
    F9,
    F10,
    F11,
    F12,
    /// Any other named key.
    Other,
}

/// A key press as the keyboard layout reports it.
#[derive(Clone, Debug)]
pub enum Key {
    /// A key that produces text.
    Character(String),
    Named(NamedKey),
    /// A key with no text and no name (unidentified or dead keys).
    Other,
}

/// The physical keys that take part in multiplexer shortcuts.
#[derive(Clone, Copy, Debug, PartialEq, Eq, Structural)]
pub enum KeyCode {
    KeyE,
    KeyO,
    KeyT,
    KeyW,
    BracketLeft,
    BracketRight,
    Tab,
    /// Any other (or an unidentified) physical key.
    Other,
}

/// A multiplexer command bound to a key chord.
#[derive(Clone, Copy, Debug, PartialEq, Eq, Structural)]
pub enum Shortcut {
    /// Ctrl+Shift+E — vertical split (left | right).
    SplitVertical,
    /// Ctrl+Shift+O — horizontal split (top / bottom).
    SplitHorizontal,
    /// Ctrl+Shift+] — focus next pane.
    FocusNextPane,
    /// Ctrl+Shift+[ — focus previous pane.
    FocusPrevPane,
    /// Ctrl+Shift+T — new workspace tab.
    NewWorkspace,
    /// Ctrl+Shift+W — close active pane.
    ClosePane,
    /// Ctrl+Shift+Tab — previous workspace.
    PrevWorkspace,
    /// Ctrl+Tab — next workspace.
    NextWorkspace,
}

/// The command a chord triggers, if any.
pub open spec fn shortcut_spec(ctrl: bool, shift: bool, code: KeyCode) -> Option<Shortcut> {
    if ctrl && shift {
        match code {
            KeyCode::KeyE => Some(Shortcut::SplitVertical),
            KeyCode::KeyO => Some(Shortcut::SplitHorizontal),
            KeyCode::BracketRight => Some(Shortcut::FocusNextPane),
            KeyCode::BracketLeft => Some(Shortcut::FocusPrevPane),
            KeyCode::KeyT => Some(Shortcut::NewWorkspace),
            KeyCode::KeyW => Some(Shortcut::ClosePane),
            KeyCode::Tab => Some(Shortcut::PrevWorkspace),
            KeyCode::Other => None,
        }
    } else if ctrl && code == KeyCode::Tab {
        Some(Shortcut::NextWorkspace)
    } else {
        None
    }
}

/// Decide which multiplexer shortcut a key press with the given modifiers
/// triggers; `None` means the key goes to the active pane's shell.
pub fn shortcut(ctrl: bool, shift: bool, code: KeyCode) -> (cmd: Option<Shortcut>)
    ensures
        cmd == shortcut_spec(ctrl, shift, code),
{
    if ctrl && shift {
        match code {
            KeyCode::KeyE => return Some(Shortcut::SplitVertical),
            KeyCode::KeyO => return Some(Shortcut::SplitHorizontal),
            KeyCode::BracketRight => return Some(Shortcut::FocusNextPane),
            KeyCode::BracketLeft => return Some(Shortcut::FocusPrevPane),
            KeyCode::KeyT => return Some(Shortcut::NewWorkspace),
            KeyCode::KeyW => return Some(Shortcut::ClosePane),
            KeyCode::Tab => return Some(Shortcut::PrevWorkspace),
            KeyCode::Other => {},
        }
    }
    if ctrl && !shift {
        if let KeyCode::Tab = code {
            return Some(Shortcut::NextWorkspace);
        }
    }
    None
}

// ── Key translation ───────────────────────────────────────────────────────────

/// The bytes a named key sends to the shell (VT sequences); none for keys
/// without one.
pub open spec fn named_key_bytes(key: NamedKey) -> Seq<u8> {
    match key {
        NamedKey::Enter => seq![0x0du8],
        NamedKey::Backspace => seq![0x7fu8],
        NamedKey::Escape => seq![0x1bu8],
        NamedKey::Tab => seq![0x09u8],
        NamedKey::ArrowUp => seq![0x1bu8, 0x5b, 0x41],
        NamedKey::ArrowDown => seq![0x1bu8, 0x5b, 0x42],
        NamedKey::ArrowRight => seq![0x1bu8, 0x5b, 0x43],
        NamedKey::ArrowLeft => seq![0x1bu8, 0x5b, 0x44],
        NamedKey::Home => seq![0x1bu8, 0x5b, 0x48],
        NamedKey::End => seq![0x1bu8, 0x5b, 0x46],
        NamedKey::Delete => seq![0x1bu8, 0x5b, 0x33, 0x7e],
        NamedKey::PageUp => seq![0x1bu8, 0x5b, 0x35, 0x7e],
        NamedKey::PageDown => seq![0x1bu8, 0x5b, 0x36, 0x7e],
        NamedKey::F1 => seq![0x1bu8, 0x4f, 0x50],
        NamedKey::F2 => seq![0x1bu8, 0x4f, 0x51],
        NamedKey::F3 => seq![0x1bu8, 0x4f, 0x52],
        NamedKey::F4 => seq![0x1bu8, 0x4f, 0x53],
        NamedKey::F5 => seq![0x1bu8, 0x5b, 0x31, 0x35, 0x7e],
        NamedKey::F6 => seq![0x1bu8, 0x5b, 0x31, 0x37, 0x7e],
        NamedKey::F7 => seq![0x1bu8, 0x5b, 0x31, 0x38, 0x7e],
        NamedKey::F8 => seq![0x1bu8, 0x5b, 0x31, 0x39, 0x7e],
        NamedKey::F9 => seq![0x1bu8, 0x5b, 0x32, 0x30, 0x7e],
        NamedKey::F10 => seq![0x1bu8, 0x5b, 0x32, 0x31, 0x7e],
        NamedKey::F11 => seq![0x1bu8, 0x5b, 0x32, 0x33, 0x7e],
        NamedKey::F12 => seq![0x1bu8, 0x5b, 0x32, 0x34, 0x7e],
        NamedKey::Other => seq![],
    }
}

/// The bytes a key press sends to the shell: the UTF-8 encoding of a
/// character key's text, a named key's sequence, nothing otherwise.
pub open spec fn key_bytes(key: Key) -> Seq<u8> {
    match key {
        Key::Character(s) => vstd::utf8::encode_utf8(s@),
        Key::Named(name) => named_key_bytes(name),
        Key::Other => seq![],
    }
}

fn named_key_to_bytes(key: NamedKey) -> (bytes: Vec<u8>)
    ensures
        bytes@ == named_key_bytes(key),
{
    let v: Vec<u8> = match key {
        NamedKey::Enter => vec![0x0d],
        NamedKey::Backspace => vec![0x7f],
        NamedKey::Escape => vec![0x1b],
        NamedKey::Tab => vec![0x09],
        NamedKey::ArrowUp => vec![0x1b, 0x5b, 0x41],
        NamedKey::ArrowDown => vec![0x1b, 0x5b, 0x42],
        NamedKey::ArrowRight => vec![0x1b, 0x5b, 0x43],
        NamedKey::ArrowLeft => vec![0x1b, 0x5b, 0x44],
        NamedKey::Home => vec![0x1b, 0x5b, 0x48],
        NamedKey::End => vec![0x1b, 0x5b, 0x46],
        NamedKey::Delete => vec![0x1b, 0x5b, 0x33, 0x7e],
        NamedKey::PageUp => vec![0x1b, 0x5b, 0x35, 0x7e],
        NamedKey::PageDown => vec![0x1b, 0x5b, 0x36, 0x7e],
        NamedKey::F1 => vec![0x1b, 0x4f, 0x50],
        NamedKey::F2 => vec![0x1b, 0x4f, 0x51],
        NamedKey::F3 => vec![0x1b, 0x4f, 0x52],
        NamedKey::F4 => vec![0x1b, 0x4f, 0x53],
        NamedKey::F5 => vec![0x1b, 0x5b, 0x31, 0x35, 0x7e],
        NamedKey::F6 => vec![0x1b, 0x5b, 0x31, 0x37, 0x7e],
        NamedKey::F7 => vec![0x1b, 0x5b, 0x31, 0x38, 0x7e],
        NamedKey::F8 => vec![0x1b, 0x5b, 0x31, 0x39, 0x7e],
        NamedKey::F9 => vec![0x1b, 0x5b, 0x32, 0x30, 0x7e],
        NamedKey::F10 => vec![0x1b, 0x5b, 0x32, 0x31, 0x7e],
        NamedKey::F11 => vec![0x1b, 0x5b, 0x32, 0x33, 0x7e],
        NamedKey::F12 => vec![0x1b, 0x5b, 0x32, 0x34, 0x7e],
        NamedKey::Other => Vec::new(),
    };
    proof {
        assert(v@ =~= named_key_bytes(key));
    }
    v
}

/// Translate a key press into the bytes sent to the shell.
pub fn key_to_bytes(key: &Key) -> (bytes: Vec<u8>)
    ensures
        bytes@ == key_bytes(*key),
{
    match key {
        Key::Character(s) => {
            let b = s.as_str().as_bytes();
            let mut out: Vec<u8> = Vec::new();
            let n = b.len();
            let mut i: usize = 0;
            while i < n
                invariant
                    n == b@.len(),
                    i <= n,
                    out@ == b@.take(i as int),
                decreases n - i,
            {
                out.push(b[i]);
                proof {
                    assert(b@.take(i + 1) =~= b@.take(i as int).push(b@[i as int]));
                }
                i = i + 1;
            }
            proof {
                assert(b@.take(n as int) =~= b@);
            }
            out
        },
        Key::Named(name) => named_key_to_bytes(*name),
        Key::Other => Vec::new(),
    }
}

// ── Laws ──────────────────────────────────────────────────────────────────────

/// Only chords with Ctrl are shortcuts: every other key press reaches the
/// shell. With Ctrl but not Shift, Tab (next workspace) is the only
/// shortcut; with Ctrl and Shift, every listed key has its own command and
/// Tab goes to the previous workspace.
pub proof fn law_shortcuts_need_ctrl(ctrl: bool, shift: bool, code: KeyCode)
    ensures
        !ctrl ==> shortcut_spec(ctrl, shift, code) is None,
        ctrl && !shift ==> shortcut_spec(ctrl, shift, code) == if code == KeyCode::Tab {
            Some(Shortcut::NextWorkspace)
        } else {
            None
        },
        ctrl && shift ==> (shortcut_spec(ctrl, shift, code) is None <==> code == KeyCode::Other),
        ctrl && shift ==> shortcut_spec(ctrl, shift, code) != Some(Shortcut::NextWorkspace),
        forall|c1: KeyCode, c2: KeyCode|
            c1 != c2 && shortcut_spec(true, true, c1) is Some ==> #[trigger] shortcut_spec(true, true, c1)
                != #[trigger] shortcut_spec(true, true, c2),
{
}

/// The VT100 final byte of the cursor-movement sequence for an arrow key:
/// `A` (up), `B` (down), `C` (right), `D` (left).
pub open spec fn arrow_final(key: NamedKey) -> Option<u8> {
    match key {
        NamedKey::ArrowUp => Some(0x41u8),
        NamedKey::ArrowDown => Some(0x42u8),
        NamedKey::ArrowRight => Some(0x43u8),
        NamedKey::ArrowLeft => Some(0x44u8),
        _ => None,
    }
}

/// Each arrow key sends the cursor-movement sequence for its own
/// direction, `ESC [` and the direction's final byte, and the four arrows
/// send four different sequences.
pub proof fn law_arrow_keys_move_the_cursor(key: NamedKey)
    ensures
        arrow_final(key) matches Some(f) ==> key_bytes(Key::Named(key)) == seq![0x1bu8, 0x5bu8, f],
        forall|k1: NamedKey, k2: NamedKey|
            #[trigger] arrow_final(k1) is Some && #[trigger] arrow_final(k2) is Some && k1 != k2
                ==> named_key_bytes(k1) != named_key_bytes(k2),
{
    assert forall|k1: NamedKey, k2: NamedKey|
        #[trigger] arrow_final(k1) is Some && #[trigger] arrow_final(k2) is Some && k1 != k2
            implies named_key_bytes(k1) != named_key_bytes(k2) by {
        assert(named_key_bytes(k1)[2] != named_key_bytes(k2)[2]);
    }
}

/// Position of a function key: 1 for F1 up to 12 for F12.
pub open spec fn function_key_number(key: NamedKey) -> Option<int> {
    match key {
        NamedKey::F1 => Some(1),
        NamedKey::F2 => Some(2),
        NamedKey::F3 => Some(3),
        NamedKey::F4 => Some(4),
        NamedKey::F5 => Some(5),
        NamedKey::F6 => Some(6),
        NamedKey::F7 => Some(7),
        NamedKey::F8 => Some(8),
        NamedKey::F9 => Some(9),
        NamedKey::F10 => Some(10),
        NamedKey::F11 => Some(11),
        NamedKey::F12 => Some(12),
        _ => None,
    }
}

/// The two-digit code of a `ESC [ d d ~` sequence.
pub open spec fn tilde_code(bytes: Seq<u8>) -> int {
    (bytes[2] - 0x30) * 10 + (bytes[3] - 0x30)
}

/// F1–F4 send `ESC O` and the consecutive final bytes `P`, `Q`, `R`, `S`;
/// F5–F12 send `ESC [`, a two-digit code and `~`, the codes growing with
/// the key's number.
pub proof fn law_function_keys(k1: NamedKey, k2: NamedKey)
    ensures
        function_key_number(k1) matches Some(i) ==> (i <= 4 ==> named_key_bytes(k1) == seq![
            0x1bu8,
            0x4fu8,
            (0x50 + i - 1) as u8,
        ]),
        function_key_number(k1) matches Some(i) ==> (i >= 5 ==> {
            let b = named_key_bytes(k1);
            &&& b.len() == 5 && b[0] == 0x1b && b[1] == 0x5b && b[4] == 0x7e
            &&& 0x30 <= b[2] <= 0x39 && 0x30 <= b[3] <= 0x39
        }),
        function_key_number(k1) matches Some(i) ==> (function_key_number(k2) matches Some(j) ==> (5
            <= i < j ==> tilde_code(named_key_bytes(k1)) < tilde_code(named_key_bytes(k2)))),
{
}

/// Named keys without a sequence send nothing, and every named key that
/// sends something starts with `ESC` unless it is a single control byte
/// (Enter, Backspace, Escape, Tab).
pub proof fn law_named_keys_are_control_sequences(key: NamedKey)
    ensures
        key == NamedKey::Other <==> named_key_bytes(key).len() == 0,
        named_key_bytes(key).len() == 1 ==> named_key_bytes(key)[0] < 0x20 || named_key_bytes(key)[0] == 0x7f,
        named_key_bytes(key).len() > 1 ==> named_key_bytes(key)[0] == 0x1b,
{
}

} // verus!
