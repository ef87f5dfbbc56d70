use vstd::prelude::*;

use super::store::Store;

verus! {

/// A keyboard key identifier.
#[derive(Clone, Copy, PartialEq, Eq, Hash, Debug, Structural)]
pub enum KeyCode {
    Char(char),
    Enter,
    Escape,
    Tab,
    BackTab,
    Up,
    Down,
    Left,
    Right,
    Backspace,
}

/// Mouse button type.
#[derive(Clone, Copy, PartialEq, Eq, Debug, Structural)]
pub enum MouseButton {
    Left,
    Right,
    Middle,
}

/// Kind of mouse event.
#[derive(Clone, Copy, PartialEq, Eq, Debug, Structural)]
pub enum MouseKind {
    Press(MouseButton),
    Release(MouseButton),
    Move,
    ScrollUp,
    ScrollDown,
}

/// A mouse event with position and kind.
#[derive(Clone, Copy, Debug)]
pub struct MouseEvent {
    pub kind: MouseKind,
    pub col: u16,
    pub row: u16,
}

/// Mathematical view of the input of one frame.
pub struct InputView {
    pub pressed: Seq<KeyCode>,
    pub mouse: Seq<MouseEvent>,
}

/// Tracks keys and mouse events during the current frame.
pub struct Input {
    pressed: Vec<KeyCode>,
    mouse: Vec<MouseEvent>,
}

impl Store for Input {}

impl View for Input {
    type V = InputView;

    closed spec fn view(&self) -> InputView {
        InputView { pressed: self.pressed@, mouse: self.mouse@ }
    }
}

impl Input {
    pub fn new() -> (i: Self)
        ensures
            i@.pressed == Seq::<KeyCode>::empty(),
            i@.mouse == Seq::<MouseEvent>::empty(),
    {
        Input { pressed: Vec::with_capacity(8), mouse: Vec::with_capacity(4) }
    }

    /// Whether `key` was pressed during this frame.
    pub fn just_pressed(&self, key: KeyCode) -> (r: bool)
        ensures
            r == self@.pressed.contains(key),
    {
        let n = self.pressed.len();
        let mut i: usize = 0;
        while i < n
            invariant
                n == self@.pressed.len(),
                0 <= i <= n,
                forall|j: int| 0 <= j < i ==> self@.pressed[j] != key,
            decreases n - i,
        {
            if self.pressed[i] == key {
                proof {
                    assert(self@.pressed[i as int] == key);
                }
                return true;
            }
            i = i + 1;
        }
        false
    }

    pub fn pressed_keys(&self) -> (r: &[KeyCode])
        ensures
            r@ == self@.pressed,
    {
        self.pressed.as_slice()
    }

    pub fn mouse_events(&self) -> (r: &[MouseEvent])
        ensures
            r@ == self@.mouse,
    {
        self.mouse.as_slice()
    }

    /// Forgets this frame's keys and mouse events.
    pub fn clear(&mut self)
        ensures
            final(self)@.pressed == Seq::<KeyCode>::empty(),
            final(self)@.mouse == Seq::<MouseEvent>::empty(),
    {
        self.pressed.clear();
        self.mouse.clear();
    }

    pub fn press(&mut self, key: KeyCode)
        ensures
            final(self)@.pressed == old(self)@.pressed.push(key),
            final(self)@.mouse == old(self)@.mouse,
    {
        self.pressed.push(key);
    }

    pub fn push_mouse(&mut self, event: MouseEvent)
        ensures
            final(self)@.pressed == old(self)@.pressed,
            final(self)@.mouse == old(self)@.mouse.push(event),
    {
        self.mouse.push(event);
    }
}

// Decoding of raw terminal input (the bytes a Unix terminal delivers in raw mode).

/// Whether `b` ends an escape sequence: an ASCII letter or `~`.
pub open spec fn ends_sequence(b: u8) -> bool {
    (0x41 <= b <= 0x5a) || (0x61 <= b <= 0x7a) || b == 0x7e
}

/// Index just past the first sequence-ending byte at or after `i` (or the end).
pub open spec fn skip_sequence(b: Seq<u8>, i: int) -> int
    decreases b.len() - i,
{
    if i >= b.len() {
        b.len() as int
    } else if ends_sequence(b[i]) {
        i + 1
    } else {
        skip_sequence(b, i + 1)
    }
}

pub proof fn lemma_skip_sequence_bounds(b: Seq<u8>, i: int)
    requires
        0 <= i <= b.len(),
    ensures
        i <= skip_sequence(b, i) <= b.len(),
    decreases b.len() - i,
{
    if i < b.len() && !ends_sequence(b[i]) {
        lemma_skip_sequence_bounds(b, i + 1);
    }
}

/// The key of a single byte outside escape sequences, if it names one.
pub open spec fn plain_key(c: u8) -> Option<KeyCode> {
    if c == 0x0d || c == 0x0a {
        Some(KeyCode::Enter)
    } else if c == 0x09 {
        Some(KeyCode::Tab)
    } else if c == 0x7f || c == 0x08 {
        Some(KeyCode::Backspace)
    } else if 0x20 <= c < 0x7f {
        Some(KeyCode::Char(c as char))
    } else {
        None
    }
}

/// The key named by the final byte of a recognised `ESC [` sequence.
pub open spec fn arrow_key(c: u8) -> Option<KeyCode> {
    if c == 0x41 {
        Some(KeyCode::Up)
    } else if c == 0x42 {
        Some(KeyCode::Down)
    } else if c == 0x43 {
        Some(KeyCode::Right)
    } else if c == 0x44 {
        Some(KeyCode::Left)
    } else if c == 0x5a {
        Some(KeyCode::BackTab)
    } else {
        None
    }
}

/// The keys encoded by `b` from position `i` on: `ESC [ A/B/C/D/Z` are the
/// arrows and back-tab, other `ESC [` sequences are skipped up to their final
/// letter or `~`, a lone `ESC` is Escape, CR and LF are Enter, TAB is Tab,
/// DEL and BS are Backspace, printable ASCII is a character; other bytes are ignored.
pub open spec fn decode_keys_from(b: Seq<u8>, i: int) -> Seq<KeyCode>
    decreases b.len() - i,
{
    if i < 0 || i >= b.len() {
        Seq::empty()
    } else if b[i] == 0x1b {
        if i + 2 < b.len() && b[i + 1] == 0x5b {
            match arrow_key(b[i + 2]) {
                Some(k) => seq![k] + decode_keys_from(b, i + 3),
                None => {
                    proof {
                        lemma_skip_sequence_bounds(b, i + 3);
                    }
                    decode_keys_from(b, skip_sequence(b, i + 3))
                },
            }
        } else {
            seq![KeyCode::Escape] + decode_keys_from(b, i + 1)
        }
    } else {
        match plain_key(b[i]) {
            Some(k) => seq![k] + decode_keys_from(b, i + 1),
            None => decode_keys_from(b, i + 1),
        }
    }
}

/// The cursor-key sequences decode to their keys wherever they stand in the
/// input: `ESC [ A` is Up, `ESC [ B` Down, `ESC [ C` Right, `ESC [ D` Left
/// and `ESC [ Z` BackTab, each followed by the keys of the bytes after it.
pub proof fn law_cursor_keys_decode(b: Seq<u8>, i: int)
    requires
        0 <= i,
        i + 3 <= b.len(),
        b[i] == 0x1b,
        b[i + 1] == 0x5b,
    ensures
        b[i + 2] == 0x41 ==> decode_keys_from(b, i) == seq![KeyCode::Up] + decode_keys_from(b, i + 3),
        b[i + 2] == 0x42 ==> decode_keys_from(b, i) == seq![KeyCode::Down] + decode_keys_from(b, i + 3),
        b[i + 2] == 0x43 ==> decode_keys_from(b, i) == seq![KeyCode::Right] + decode_keys_from(b, i + 3),
        b[i + 2] == 0x44 ==> decode_keys_from(b, i) == seq![KeyCode::Left] + decode_keys_from(b, i + 3),
        b[i + 2] == 0x5a ==> decode_keys_from(b, i) == seq![KeyCode::BackTab] + decode_keys_from(b, i + 3),
{
}

/// Outside escape sequences, printable ASCII decodes to that character,
/// CR and LF to Enter, TAB to Tab, DEL and BS to Backspace, each followed by
/// the keys of the bytes after it.
pub proof fn law_plain_bytes_decode(b: Seq<u8>, i: int)
    requires
        0 <= i < b.len(),
    ensures
        0x20 <= b[i] < 0x7f ==> decode_keys_from(b, i) == seq![KeyCode::Char(b[i] as char)] + decode_keys_from(b, i + 1),
        (b[i] == 0x0d || b[i] == 0x0a) ==> decode_keys_from(b, i) == seq![KeyCode::Enter] + decode_keys_from(b, i + 1),
        b[i] == 0x09 ==> decode_keys_from(b, i) == seq![KeyCode::Tab] + decode_keys_from(b, i + 1),
        (b[i] == 0x7f || b[i] == 0x08) ==> decode_keys_from(b, i) == seq![KeyCode::Backspace] + decode_keys_from(b, i + 1),
        b[i] == 0x1b && (i + 2 >= b.len() || b[i + 1] != 0x5b) ==> decode_keys_from(b, i) == seq![KeyCode::Escape]
            + decode_keys_from(b, i + 1),
{
}

/// The keys encoded by a chunk of raw terminal input.
pub open spec fn decode_keys(b: Seq<u8>) -> Seq<KeyCode> {
    decode_keys_from(b, 0)
}

/// Decodes a chunk of raw terminal input into key presses.
pub fn parse_keys(bytes: &[u8]) -> (keys: Vec<KeyCode>)
    ensures
        keys@ == decode_keys(bytes@),
{
    let mut keys: Vec<KeyCode> = Vec::new();
    let n = bytes.len();
    let mut i: usize = 0;
    while i < n
        invariant
            n == bytes@.len(),
            0 <= i <= n,
            keys@ + decode_keys_from(bytes@, i as int) == decode_keys(bytes@),
        decreases n - i,
    {
        let ghost b = bytes@;
        let ghost before = keys@;
        if bytes[i] == 0x1b {
            if n - i > 2 && bytes[i + 1] == 0x5b {
                let c = bytes[i + 2];
                let arrow = if c == 0x41 {
                    Some(KeyCode::Up)
                } else if c == 0x42 {
                    Some(KeyCode::Down)
                } else if c == 0x43 {
                    Some(KeyCode::Right)
                } else if c == 0x44 {
                    Some(KeyCode::Left)
                } else if c == 0x5a {
                    Some(KeyCode::BackTab)
                } else {
                    None
                };
                match arrow {
                    Some(k) => {
                        keys.push(k);
                        proof {
                            assert(keys@ + decode_keys_from(b, i + 3) =~= before + decode_keys_from(b, i as int));
                        }
                        i = i + 3;
                    },
                    None => {
                        let mut j = i + 3;
                        while j < n && !is_sequence_end(bytes[j])
                            invariant
                                n == bytes@.len(),
                                b == bytes@,
                                i + 3 <= j <= n,
                                skip_sequence(b, j as int) == skip_sequence(b, i + 3),
                            decreases n - j,
                        {
                            j = j + 1;
                        }
                        if j < n {
                            j = j + 1;
                        }
                        proof {
                            lemma_skip_sequence_bounds(b, i + 3);
                        }
                        i = j;
                    },
                }
            } else {
                keys.push(KeyCode::Escape);
                proof {
                    assert(keys@ + decode_keys_from(b, i + 1) =~= before + decode_keys_from(b, i as int));
                }
                i = i + 1;
            }
        } else {
            let c = bytes[i];
            if c == 0x0d || c == 0x0a {
                keys.push(KeyCode::Enter);
            } else if c == 0x09 {
                keys.push(KeyCode::Tab);
            } else if c == 0x7f || c == 0x08 {
                keys.push(KeyCode::Backspace);
            } else if c >= 0x20 && c < 0x7f {
                keys.push(KeyCode::Char(c as char));
            }
            proof {
                assert(keys@ + decode_keys_from(b, i + 1) =~= before + decode_keys_from(b, i as int));
            }
            i = i + 1;
        }
    }
    proof {
        assert(keys@ + decode_keys_from(bytes@, i as int) =~= keys@);
    }
    keys
}

fn is_sequence_end(b: u8) -> (r: bool)
    ensures
        r == ends_sequence(b),
{
    (b >= 0x41 && b <= 0x5a) || (b >= 0x61 && b <= 0x7a) || b == 0x7e
}

// Decoding of Windows console records.

/// Windows virtual-key codes of the keys the framework knows.
pub open spec fn spec_vk_to_keycode(vk: u16, uchar: u16, shift: bool) -> Option<KeyCode> {
    if vk == 0x0d {
        Some(KeyCode::Enter)
    } else if vk == 0x1b {
        Some(KeyCode::Escape)
    } else if vk == 0x09 {
        if shift {
            Some(KeyCode::BackTab)
        } else {
            Some(KeyCode::Tab)
        }
    } else if vk == 0x08 {
        Some(KeyCode::Backspace)
    } else if vk == 0x26 {
        Some(KeyCode::Up)
    } else if vk == 0x28 {
        Some(KeyCode::Down)
    } else if vk == 0x25 {
        Some(KeyCode::Left)
    } else if vk == 0x27 {
        Some(KeyCode::Right)
    } else if vk == 0x20 {
        Some(KeyCode::Char(' '))
    } else if uchar != 0 && !(0xd800 <= uchar <= 0xdfff) {
        Some(KeyCode::Char((uchar as u32) as char))
    } else {
        None
    }
}

/// The Windows virtual keys of the arrows, Enter, Escape, Backspace and Tab
/// decode to those keys whatever character and modifiers come with them
/// (Tab with Shift is BackTab).
pub proof fn law_virtual_keys_decode(uchar: u16, shift: bool)
    ensures
        spec_vk_to_keycode(0x26, uchar, shift) == Some(KeyCode::Up),
        spec_vk_to_keycode(0x28, uchar, shift) == Some(KeyCode::Down),
        spec_vk_to_keycode(0x25, uchar, shift) == Some(KeyCode::Left),
        spec_vk_to_keycode(0x27, uchar, shift) == Some(KeyCode::Right),
        spec_vk_to_keycode(0x0d, uchar, shift) == Some(KeyCode::Enter),
        spec_vk_to_keycode(0x1b, uchar, shift) == Some(KeyCode::Escape),
        spec_vk_to_keycode(0x08, uchar, shift) == Some(KeyCode::Backspace),
        spec_vk_to_keycode(0x09, uchar, shift) == Some(if shift { KeyCode::BackTab } else { KeyCode::Tab }),
{
}

/// The `SHIFT_PRESSED` bit of a console control-key state.
pub const SHIFT_PRESSED: u32 = 0x0010u32;

/// Key of a Windows key-down record, from its virtual-key code, its UTF-16
/// unit and its control-key state.
pub fn vk_to_keycode(vk: u16, uchar: u16, state: u32) -> (r: Option<KeyCode>)
    ensures
        r == spec_vk_to_keycode(vk, uchar, state & SHIFT_PRESSED != 0),
{
    if vk == 0x0d {
        Some(KeyCode::Enter)
    } else if vk == 0x1b {
        Some(KeyCode::Escape)
    } else if vk == 0x09 {
        if state & SHIFT_PRESSED != 0 {
            Some(KeyCode::BackTab)
        } else {
            Some(KeyCode::Tab)
        }
    } else if vk == 0x08 {
        Some(KeyCode::Backspace)
    } else if vk == 0x26 {
        Some(KeyCode::Up)
    } else if vk == 0x28 {
        Some(KeyCode::Down)
    } else if vk == 0x25 {
        Some(KeyCode::Left)
    } else if vk == 0x27 {
        Some(KeyCode::Right)
    } else if vk == 0x20 {
        Some(KeyCode::Char(' '))
    } else if uchar != 0 {
        match char_from_u32(uchar as u32) {
            Some(c) => Some(KeyCode::Char(c)),
            None => None,
        }
    } else {
        None
    }
}

/// `char::from_u32`: the character with code point `v`, or `None` when `v`
/// is a surrogate (0xD800..=0xDFFF) or above 0x10FFFF, as its documentation states.
#[verifier::external_body]
fn char_from_u32(v: u32) -> (r: Option<char>)
    ensures
        r is Some <==> (v <= 0x10ffff && !(0xd800 <= v <= 0xdfff)),
        r matches Some(c) ==> c == v as char,
{
    char::from_u32(v)
}

/// Kind of a Windows mouse record from its event flags and button state:
/// wheel (flag 0x04; up when the signed high word is positive), move (flag
/// 0x01), else a press of the first of left, right, middle buttons held,
/// else a release of the left button.
pub open spec fn spec_mouse_kind(flags: u32, buttons: u32) -> MouseKind {
    if flags & 0x04 != 0 {
        if ((buttons >> 16u32) as i16) > 0 {
            MouseKind::ScrollUp
        } else {
            MouseKind::ScrollDown
        }
    } else if flags & 0x01 != 0 {
        MouseKind::Move
    } else if buttons & 0x0001 != 0 {
        MouseKind::Press(MouseButton::Left)
    } else if buttons & 0x0002 != 0 {
        MouseKind::Press(MouseButton::Right)
    } else if buttons & 0x0004 != 0 {
        MouseKind::Press(MouseButton::Middle)
    } else {
        MouseKind::Release(MouseButton::Left)
    }
}

/// Decodes the kind of a Windows console mouse record.
pub fn mouse_kind(flags: u32, buttons: u32) -> (r: MouseKind)
    ensures
        r == spec_mouse_kind(flags, buttons),
{
    if flags & 0x04 != 0 {
        if ((buttons >> 16u32) as i16) > 0 {
            MouseKind::ScrollUp
        } else {
            MouseKind::ScrollDown
        }
    } else if flags & 0x01 != 0 {
        MouseKind::Move
    } else if buttons & 0x0001 != 0 {
        MouseKind::Press(MouseButton::Left)
    } else if buttons & 0x0002 != 0 {
        MouseKind::Press(MouseButton::Right)
    } else if buttons & 0x0004 != 0 {
        MouseKind::Press(MouseButton::Middle)
    } else {
        MouseKind::Release(MouseButton::Left)
    }
}

} // verus!
