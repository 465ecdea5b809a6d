//! Keys as the terminal reports them, and the bytes a key sends to a task's terminal.
//!
//! The encoding follows xterm: control characters for Ctrl with a letter, an escape first for
//! Alt, and CSI or SS3 sequences for the cursor, editing and function keys.
use vstd::prelude::*;
use vstd::utf8::{encode_utf8, encode_scalar};

verus! {

/// The Shift modifier bit.
pub const SHIFT: u8 = 0b1;

/// The Control modifier bit.
pub const CONTROL: u8 = 0b10;

/// The Alt modifier bit.
pub const ALT: u8 = 0b100;

/// A key, as the terminal reports it.
#[derive(Debug, Clone, Copy, PartialEq, Eq, Structural)]
pub enum KeyCode {
    Backspace,
    Enter,
    Left,
    Right,
    Up,
    Down,
    Home,
    End,
    PageUp,
    PageDown,
    Tab,
    BackTab,
    Delete,
    Insert,
    F(u8),
    Char(char),
    Null,
    Esc,
    CapsLock,
    ScrollLock,
    NumLock,
    PrintScreen,
    Pause,
    Menu,
    KeypadBegin,
    Media,
    Modifier,
}

/// The modifier keys held, as bits: Shift, Control, Alt, then Super, Hyper and Meta.
#[derive(Debug, Clone, Copy, PartialEq, Eq, Structural)]
pub struct KeyModifiers {
    pub bits: u8,
}

/// Whether a key was pressed, repeated or released.
#[derive(Debug, Clone, Copy, PartialEq, Eq, Structural)]
pub enum KeyEventKind {
    Press,
    Repeat,
    Release,
}

/// A key event.
#[derive(Debug, Clone, Copy, PartialEq, Eq, Structural)]
pub struct KeyEvent {
    pub code: KeyCode,
    pub modifiers: KeyModifiers,
    pub kind: KeyEventKind,
}

/// Whether all the modifiers of `bits` are held.
pub open spec fn spec_has(m: KeyModifiers, bits: u8) -> bool {
    m.bits & bits == bits
}

impl KeyModifiers {
    /// Whether all the modifiers of `bits` are held.
    pub fn contains(&self, bits: u8) -> (r: bool)
        ensures
            r == spec_has(*self, bits),
    {
        self.bits & bits == bits
    }

    /// Whether no modifier is held.
    pub fn is_empty(&self) -> (r: bool)
        ensures
            r == (self.bits == 0),
    {
        self.bits == 0
    }
}

/// Whether `c` is an ASCII lowercase letter.
pub open spec fn spec_is_ascii_lowercase(c: char) -> bool {
    'a' <= c <= 'z'
}

/// Whether `c` is an ASCII letter or digit.
pub open spec fn spec_is_ascii_alphanumeric(c: char) -> bool {
    ('a' <= c <= 'z') || ('A' <= c <= 'Z') || ('0' <= c <= '9')
}

/// Whether `c` is ASCII punctuation.
pub open spec fn spec_is_ascii_punctuation(c: char) -> bool {
    ('!' <= c <= '/') || (':' <= c <= '@') || ('[' <= c <= '`') || ('{' <= c <= '~')
}

/// The uppercase of an ASCII lowercase letter.
pub open spec fn spec_to_upper(c: char) -> char {
    ((c as u32) - 32) as char
}

/// The key, with a lowercase letter made uppercase when Shift is held.
pub open spec fn spec_normalize(code: KeyCode, m: KeyModifiers) -> KeyCode {
    match code {
        KeyCode::Char(c) => if spec_has(m, SHIFT) && spec_is_ascii_lowercase(c) {
            KeyCode::Char(spec_to_upper(c))
        } else {
            code
        },
        _ => code,
    }
}

/// The control character that Ctrl with `c` sends, as xterm maps it.
pub open spec fn spec_ctrl_mapping(c: char) -> Option<char> {
    if c == '@' || c == '`' || c == ' ' || c == '2' {
        Some('\x00')
    } else if 'a' <= c <= 'z' {
        Some(((c as u32) - 96) as char)
    } else if 'A' <= c <= 'Z' {
        Some(((c as u32) - 64) as char)
    } else if c == '[' || c == '3' || c == '{' {
        Some('\x1b')
    } else if c == '\\' || c == '4' || c == '|' {
        Some('\x1c')
    } else if c == ']' || c == '5' || c == '}' {
        Some('\x1d')
    } else if c == '^' || c == '6' || c == '~' {
        Some('\x1e')
    } else if c == '_' || c == '7' || c == '/' {
        Some('\x1f')
    } else if c == '8' || c == '?' {
        Some('\x7f')
    } else {
        None
    }
}

/// The number xterm gives the modifiers: 1 for Shift, 2 for Alt and 4 for Control, added up.
pub open spec fn spec_encode_modifiers(m: KeyModifiers) -> u8 {
    ((if spec_has(m, SHIFT) { 1int } else { 0 }) + (if spec_has(m, ALT) { 2int } else { 0 }) + (if spec_has(
        m,
        CONTROL,
    ) {
        4int
    } else {
        0
    })) as u8
}

/// The decimal digit of a number from 0 to 9.
pub open spec fn digit(n: int) -> char {
    ((48 + n) as u32) as char
}

/// The characters an escape puts before a key when Alt is held.
pub open spec fn alt_prefix(m: KeyModifiers) -> Seq<char> {
    if spec_has(m, ALT) {
        seq!['\x1b']
    } else {
        Seq::empty()
    }
}

/// The key after the Shift normalisation, with the DEL and BS characters read as the Backspace
/// and Delete keys.
pub open spec fn effective_code(key: KeyEvent) -> KeyCode {
    match spec_normalize(key.code, key.modifiers) {
        KeyCode::Char(c) => if c == '\x7f' {
            KeyCode::Backspace
        } else if c == '\x08' {
            KeyCode::Delete
        } else {
            KeyCode::Char(c)
        },
        c => c,
    }
}

/// The final letter of the sequence of a cursor key.
pub open spec fn cursor_letter(code: KeyCode) -> char {
    match code {
        KeyCode::Up => 'A',
        KeyCode::Down => 'B',
        KeyCode::Right => 'C',
        KeyCode::Left => 'D',
        KeyCode::Home => 'H',
        _ => 'F',
    }
}

/// The number of the sequence of an editing key.
pub open spec fn editing_digit(code: KeyCode) -> char {
    match code {
        KeyCode::Insert => '2',
        KeyCode::Delete => '3',
        KeyCode::PageUp => '5',
        _ => '6',
    }
}

/// The opening of the CSI sequence of the function key `n`, from 1 to 12.
pub open spec fn fkey_intro(n: u8) -> Seq<char> {
    let (a, b) = if n <= 5 {
        ('1', digit(n as int))
    } else if n <= 8 {
        ('1', digit(n + 1))
    } else if n <= 10 {
        ('2', digit(n - 9))
    } else {
        ('2', digit(n - 8))
    };
    seq!['\x1b', '[', a, b]
}

/// Whether any of Shift, Alt and Control is held.
pub open spec fn any_mod(m: KeyModifiers) -> bool {
    spec_has(m, ALT) || spec_has(m, SHIFT) || spec_has(m, CONTROL)
}

/// The characters a key sends to a terminal. A released key sends nothing.
pub open spec fn key_chars(key: KeyEvent) -> Seq<char> {
    let m = key.modifiers;
    let code = effective_code(key);
    if key.kind is Release {
        Seq::empty()
    } else {
        match code {
            KeyCode::Char(c) => if spec_has(m, CONTROL) && spec_ctrl_mapping(c) is Some {
                alt_prefix(m).push(spec_ctrl_mapping(c)->0)
            } else if (spec_is_ascii_alphanumeric(c) || spec_is_ascii_punctuation(c)) && spec_has(m, ALT) {
                seq!['\x1b', c]
            } else {
                seq![c]
            },
            KeyCode::Enter => alt_prefix(m).push('\r'),
            KeyCode::Esc => alt_prefix(m).push('\x1b'),
            KeyCode::Backspace => alt_prefix(m).push('\x7f'),
            KeyCode::Tab => {
                let rest = m.bits & !ALT;
                alt_prefix(m) + if rest == CONTROL {
                    seq!['\x1b', '[', '9', ';', '5', 'u']
                } else if rest == CONTROL | SHIFT {
                    seq!['\x1b', '[', '1', ';', '5', 'Z']
                } else if rest == SHIFT {
                    seq!['\x1b', '[', 'Z']
                } else {
                    seq!['\t']
                }
            },
            KeyCode::BackTab => seq!['\x1b', '[', 'Z'],
            KeyCode::Home | KeyCode::End | KeyCode::Up | KeyCode::Down | KeyCode::Right | KeyCode::Left => {
                if any_mod(m) {
                    seq!['\x1b', '[', '1', ';', digit(1 + spec_encode_modifiers(m)), cursor_letter(code)]
                } else {
                    seq!['\x1b', '[', cursor_letter(code)]
                }
            },
            KeyCode::PageUp | KeyCode::PageDown | KeyCode::Insert | KeyCode::Delete => {
                if any_mod(m) {
                    seq!['\x1b', '[', editing_digit(code), digit(1 + spec_encode_modifiers(m))]
                } else {
                    seq!['\x1b', '[', editing_digit(code), '~']
                }
            },
            KeyCode::F(n) => if m.bits == 0 && n < 5 {
                seq!['\x1b', 'O', ((79 + n) as u32) as char]
            } else if spec_encode_modifiers(m) == 0 {
                fkey_intro(n).push('~')
            } else {
                fkey_intro(n) + seq![';', digit(1 + spec_encode_modifiers(m)), '~']
            },
            _ => Seq::empty(),
        }
    }
}

/// Whether the key can be encoded: the function keys are F1 to F12.
pub open spec fn encodable(key: KeyEvent) -> bool {
    key.kind is Release || match key.code {
        KeyCode::F(n) => 1 <= n <= 12,
        _ => true,
    }
}

/// Maps `c` to the control character Ctrl with it sends. In theory, this is the uppercase of
/// a letter masked by 0x1f, but xterm inherits some aliases from X11, a few of them tied to the
/// US keyboard layout.
pub fn ctrl_mapping(c: char) -> (r: Option<char>)
    ensures
        r == spec_ctrl_mapping(c),
{
    if c == '@' || c == '`' || c == ' ' || c == '2' {
        Some('\x00')
    } else if 'a' <= c && c <= 'z' {
        let n = (c as u32) - 96;
        Some(small_char(n))
    } else if 'A' <= c && c <= 'Z' {
        let n = (c as u32) - 64;
        Some(small_char(n))
    } else if c == '[' || c == '3' || c == '{' {
        Some('\x1b')
    } else if c == '\\' || c == '4' || c == '|' {
        Some('\x1c')
    } else if c == ']' || c == '5' || c == '}' {
        Some('\x1d')
    } else if c == '^' || c == '6' || c == '~' {
        Some('\x1e')
    } else if c == '_' || c == '7' || c == '/' {
        Some('\x1f')
    } else if c == '8' || c == '?' {
        Some('\x7f')
    } else {
        None
    }
}

/// The character of an ASCII code.
fn small_char(n: u32) -> (r: char)
    requires
        n < 128,
    ensures
        r == n as char,
{
    (n as u8) as char
}

/// With Shift held, a lowercase letter becomes the uppercase one.
pub fn normalize_shift_to_upper_case(code: KeyCode, modifiers: &KeyModifiers) -> (r: KeyCode)
    ensures
        r == spec_normalize(code, *modifiers),
{
    if modifiers.contains(SHIFT) {
        match code {
            KeyCode::Char(c) => {
                if 'a' <= c && c <= 'z' {
                    KeyCode::Char(small_char((c as u32) - 32))
                } else {
                    code
                }
            },
            _ => code,
        }
    } else {
        code
    }
}

/// The number xterm gives the modifiers held: 1 for Shift, 2 for Alt and 4 for Control, added up.
pub fn encode_modifiers(mods: KeyModifiers) -> (r: u8)
    ensures
        r == spec_encode_modifiers(mods),
        r <= 7,
{
    let mut number: u8 = 0;
    if mods.contains(SHIFT) {
        number = number + 1;
    }
    if mods.contains(ALT) {
        number = number + 2;
    }
    if mods.contains(CONTROL) {
        number = number + 4;
    }
    number
}

/// The decimal digit of a number from 0 to 9.
fn digit_char(n: u8) -> (r: char)
    requires
        n <= 9,
    ensures
        r == digit(n as int),
{
    small_char(48 + n as u32)
}

/// The UTF-8 encoding of a character.
fn encode_char(c: char) -> (r: Vec<u8>)
    ensures
        r@ == encode_scalar(c as u32),
{
    let v = c as u32;
    let mut r: Vec<u8> = Vec::new();
    if v <= 0x7F {
        r.push((v & 0x7F) as u8);
    } else if v <= 0x7FF {
        r.push(0xC0 | ((v >> 6) & 0x1F) as u8);
        r.push(0x80 | (v & 0x3F) as u8);
    } else if v <= 0xFFFF {
        r.push(0xE0 | ((v >> 12) & 0x0F) as u8);
        r.push(0x80 | ((v >> 6) & 0x3F) as u8);
        r.push(0x80 | (v & 0x3F) as u8);
    } else {
        r.push(0xF0 | ((v >> 18) & 0x7) as u8);
        r.push(0x80 | ((v >> 12) & 0x3F) as u8);
        r.push(0x80 | ((v >> 6) & 0x3F) as u8);
        r.push(0x80 | (v & 0x3F) as u8);
    }
    proof {
        assert(r@ =~= encode_scalar(v));
    }
    r
}

/// Encoding one more character appends its encoding.
proof fn lemma_encode_push(s: Seq<char>, c: char)
    ensures
        encode_utf8(s.push(c)) == encode_utf8(s) + encode_scalar(c as u32),
    decreases s.len(),
{
    if s.len() == 0 {
        assert(s.push(c).drop_first() =~= Seq::<char>::empty());
        assert(encode_utf8(Seq::<char>::empty()) == Seq::<u8>::empty());
        assert(encode_scalar(c as u32) + Seq::<u8>::empty() =~= encode_scalar(c as u32));
    } else {
        assert(s.push(c).drop_first() =~= s.drop_first().push(c));
        lemma_encode_push(s.drop_first(), c);
        assert(encode_utf8(s.push(c)) == encode_scalar(s[0] as u32) + encode_utf8(s.drop_first().push(c)));
        assert(encode_scalar(s[0] as u32) + (encode_utf8(s.drop_first()) + encode_scalar(c as u32))
            =~= (encode_scalar(s[0] as u32) + encode_utf8(s.drop_first())) + encode_scalar(c as u32));
    }
}

/// The UTF-8 encoding of a list of characters.
fn encode_chars(chars: &Vec<char>) -> (r: Vec<u8>)
    ensures
        r@ == encode_utf8(chars@),
{
    let mut r: Vec<u8> = Vec::new();
    let mut i: usize = 0;
    while i < chars.len()
        invariant
            i <= chars.len(),
            r@ == encode_utf8(chars@.take(i as int)),
        decreases chars.len() - i,
    {
        let mut e = encode_char(chars[i]);
        proof {
            lemma_encode_push(chars@.take(i as int), chars@[i as int]);
            assert(chars@.take(i + 1) =~= chars@.take(i as int).push(chars@[i as int]));
        }
        r.append(&mut e);
        i = i + 1;
    }
    proof {
        assert(chars@.take(chars@.len() as int) =~= chars@);
    }
    r
}

/// The characters a key sends to a terminal; see [`key_chars`].
fn key_to_chars(key: KeyEvent) -> (r: Vec<char>)
    requires
        encodable(key),
    ensures
        r@ == key_chars(key),
{
    if key.kind == KeyEventKind::Release {
        return Vec::new();
    }
    let mods = key.modifiers;
    let code = normalize_shift_to_upper_case(key.code, &mods);
    // Normalize Backspace and Delete
    let code = match code {
        KeyCode::Char(c) => if c == '\x7f' {
            KeyCode::Backspace
        } else if c == '\x08' {
            KeyCode::Delete
        } else {
            KeyCode::Char(c)
        },
        c => c,
    };
    assert(code == effective_code(key));
    let mut buf: Vec<char> = Vec::new();
    let alt = mods.contains(ALT);
    match code {
        KeyCode::Char(c) => {
            let mapped = ctrl_mapping(c);
            if mods.contains(CONTROL) && mapped.is_some() {
                if alt {
                    buf.push('\x1b');
                }
                buf.push(mapped.unwrap());
            } else if (('a' <= c && c <= 'z') || ('A' <= c && c <= 'Z') || ('0' <= c && c <= '9') || ('!' <= c
                && c <= '/') || (':' <= c && c <= '@') || ('[' <= c && c <= '`') || ('{' <= c && c <= '~'))
                && alt {
                // When alt is pressed, send escape first to indicate to the peer that ALT is
                // pressed, only for ascii alnum and punctuation characters: eg: macOS generates
                // altgr style glyphs and keeps the ALT key in the modifier set
                buf.push('\x1b');
                buf.push(c);
            } else {
                buf.push(c);
            }
        },
        KeyCode::Enter | KeyCode::Esc | KeyCode::Backspace => {
            let c = match code {
                KeyCode::Enter => '\r',
                KeyCode::Esc => '\x1b',
                // Backspace sends the default VERASE which is confusingly the DEL ascii codepoint
                _ => '\x7f',
            };
            if alt {
                buf.push('\x1b');
            }
            buf.push(c);
        },
        KeyCode::Tab => {
            if alt {
                buf.push('\x1b');
            }
            let rest = mods.bits & !ALT;
            if rest == CONTROL {
                buf.push('\x1b');
                buf.push('[');
                buf.push('9');
                buf.push(';');
                buf.push('5');
                buf.push('u');
            } else if rest == CONTROL | SHIFT {
                buf.push('\x1b');
                buf.push('[');
                buf.push('1');
                buf.push(';');
                buf.push('5');
                buf.push('Z');
            } else if rest == SHIFT {
                buf.push('\x1b');
                buf.push('[');
                buf.push('Z');
            } else {
                buf.push('\t');
            }
        },
        KeyCode::BackTab => {
            buf.push('\x1b');
            buf.push('[');
            buf.push('Z');
        },
        KeyCode::Home | KeyCode::End | KeyCode::Up | KeyCode::Down | KeyCode::Right | KeyCode::Left => {
            let c = match code {
                KeyCode::Up => 'A',
                KeyCode::Down => 'B',
                KeyCode::Right => 'C',
                KeyCode::Left => 'D',
                KeyCode::Home => 'H',
                _ => 'F',
            };
            if mods.contains(ALT) || mods.contains(SHIFT) || mods.contains(CONTROL) {
                buf.push('\x1b');
                buf.push('[');
                buf.push('1');
                buf.push(';');
                buf.push(digit_char(1 + encode_modifiers(mods)));
                buf.push(c);
            } else {
                buf.push('\x1b');
                buf.push('[');
                buf.push(c);
            }
        },
        KeyCode::PageUp | KeyCode::PageDown | KeyCode::Insert | KeyCode::Delete => {
            let c = match code {
                KeyCode::Insert => '2',
                KeyCode::Delete => '3',
                KeyCode::PageUp => '5',
                _ => '6',
            };
            if mods.contains(ALT) || mods.contains(SHIFT) || mods.contains(CONTROL) {
                buf.push('\x1b');
                buf.push('[');
                buf.push(c);
                buf.push(digit_char(1 + encode_modifiers(mods)));
            } else {
                buf.push('\x1b');
                buf.push('[');
                buf.push(c);
                buf.push('~');
            }
        },
        KeyCode::F(n) => {
            if mods.is_empty() && n < 5 {
                // F1-F4 are encoded using SS3 if there are no modifiers
                buf.push('\x1b');
                buf.push('O');
                buf.push(small_char(79 + n as u32));
            } else {
                // Higher numbered F-keys plus modified F-keys are encoded using CSI instead of SS3
                let (a, b) = if n <= 5 {
                    ('1', digit_char(n))
                } else if n <= 8 {
                    ('1', digit_char(n + 1))
                } else if n <= 10 {
                    ('2', digit_char(n - 9))
                } else {
                    ('2', digit_char(n - 8))
                };
                buf.push('\x1b');
                buf.push('[');
                buf.push(a);
                buf.push(b);
                let encoded_mods = encode_modifiers(mods);
                if encoded_mods == 0 {
                    // No modifier sequence, as the modifier encoding is a CSI-u extension
                    buf.push('~');
                } else {
                    buf.push(';');
                    buf.push(digit_char(1 + encoded_mods));
                    buf.push('~');
                }
            }
        },
        _ => {},
    }
    assert(buf@ =~= key_chars(key));
    buf
}

/// The bytes a key sends to the terminal of a task: the UTF-8 encoding of [`key_chars`].
pub fn encode_key(key: KeyEvent) -> (r: Vec<u8>)
    requires
        encodable(key),
    ensures
        r@ == encode_utf8(key_chars(key)),
{
    let chars = key_to_chars(key);
    encode_chars(&chars)
}

/// A key pressed or repeated with no modifier held.
pub open spec fn plain_key(code: KeyCode, kind: KeyEventKind) -> KeyEvent {
    KeyEvent { code, modifiers: KeyModifiers { bits: 0 }, kind }
}

/// The UTF-8 encoding of three ASCII characters is their codes.
proof fn lemma_ascii3(a: char, b: char, c: char)
    requires
        (a as u32) < 0x80,
        (b as u32) < 0x80,
        (c as u32) < 0x80,
    ensures
        encode_utf8(seq![a, b, c]) == seq![(a as u32) as u8, (b as u32) as u8, (c as u32) as u8],
{
    let s = seq![a, b, c];
    let s1 = s.drop_first();
    let s2 = s1.drop_first();
    let s3 = s2.drop_first();
    assert(s1 =~= seq![b, c]);
    assert(s2 =~= seq![c]);
    assert(s3 =~= Seq::<char>::empty());
    let (x, y, z) = (a as u32, b as u32, c as u32);
    assert((x & 0x7F) == x) by (bit_vector)
        requires
            x < 0x80,
    ;
    assert((y & 0x7F) == y) by (bit_vector)
        requires
            y < 0x80,
    ;
    assert((z & 0x7F) == z) by (bit_vector)
        requires
            z < 0x80,
    ;
    assert(encode_scalar(x) == seq![x as u8]);
    assert(encode_scalar(y) == seq![y as u8]);
    assert(encode_scalar(z) == seq![z as u8]);
    assert(encode_utf8(s3) == Seq::<u8>::empty());
    assert(encode_utf8(s2) == encode_scalar(z) + encode_utf8(s3));
    assert(encode_utf8(s1) == encode_scalar(y) + encode_utf8(s2));
    assert(encode_utf8(s) == encode_scalar(x) + encode_utf8(s1));
    assert(encode_utf8(s) =~= seq![x as u8, y as u8, z as u8]);
}

/// Each cursor key pressed without a modifier sends escape, `[` and its xterm letter: Up `A`,
/// Down `B`, Right `C`, Left `D`, Home `H`, End `F`.
pub proof fn law_cursor_keys_send_xterm_sequences(kind: KeyEventKind)
    requires
        !(kind is Release),
    ensures
        key_chars(plain_key(KeyCode::Up, kind)) == seq!['\x1b', '[', 'A'],
        key_chars(plain_key(KeyCode::Down, kind)) == seq!['\x1b', '[', 'B'],
        key_chars(plain_key(KeyCode::Right, kind)) == seq!['\x1b', '[', 'C'],
        key_chars(plain_key(KeyCode::Left, kind)) == seq!['\x1b', '[', 'D'],
        key_chars(plain_key(KeyCode::Home, kind)) == seq!['\x1b', '[', 'H'],
        key_chars(plain_key(KeyCode::End, kind)) == seq!['\x1b', '[', 'F'],
        encode_utf8(key_chars(plain_key(KeyCode::Up, kind))) == seq![0x1bu8, 0x5bu8, 0x41u8],
        encode_utf8(key_chars(plain_key(KeyCode::Down, kind))) == seq![0x1bu8, 0x5bu8, 0x42u8],
        encode_utf8(key_chars(plain_key(KeyCode::Right, kind))) == seq![0x1bu8, 0x5bu8, 0x43u8],
        encode_utf8(key_chars(plain_key(KeyCode::Left, kind))) == seq![0x1bu8, 0x5bu8, 0x44u8],
        encode_utf8(key_chars(plain_key(KeyCode::Home, kind))) == seq![0x1bu8, 0x5bu8, 0x48u8],
        encode_utf8(key_chars(plain_key(KeyCode::End, kind))) == seq![0x1bu8, 0x5bu8, 0x46u8],
{
    let m = KeyModifiers { bits: 0 };
    assert(!spec_has(m, ALT) && !spec_has(m, SHIFT) && !spec_has(m, CONTROL)) by {
        assert((0u8 & 4u8) != 4u8 && (0u8 & 1u8) != 1u8 && (0u8 & 2u8) != 2u8) by (bit_vector);
    }
    assert(!any_mod(m));
    lemma_ascii3('\x1b', '[', 'A');
    lemma_ascii3('\x1b', '[', 'B');
    lemma_ascii3('\x1b', '[', 'C');
    lemma_ascii3('\x1b', '[', 'D');
    lemma_ascii3('\x1b', '[', 'H');
    lemma_ascii3('\x1b', '[', 'F');
}

/// The editing keys and the plain keys pressed without a modifier send xterm's sequences:
/// Insert `ESC [ 2 ~`, Delete `ESC [ 3 ~`, Page Up `ESC [ 5 ~`, Page Down `ESC [ 6 ~`, Enter a
/// carriage return, Tab a tab, Backspace DEL, Escape an escape, and Shift-Tab `ESC [ Z`.
pub proof fn law_editing_keys_send_xterm_sequences(kind: KeyEventKind)
    requires
        !(kind is Release),
    ensures
        key_chars(plain_key(KeyCode::Insert, kind)) == seq!['\x1b', '[', '2', '~'],
        key_chars(plain_key(KeyCode::Delete, kind)) == seq!['\x1b', '[', '3', '~'],
        key_chars(plain_key(KeyCode::PageUp, kind)) == seq!['\x1b', '[', '5', '~'],
        key_chars(plain_key(KeyCode::PageDown, kind)) == seq!['\x1b', '[', '6', '~'],
        key_chars(plain_key(KeyCode::Enter, kind)) == seq!['\r'],
        key_chars(plain_key(KeyCode::Tab, kind)) == seq!['\t'],
        key_chars(plain_key(KeyCode::Backspace, kind)) == seq!['\x7f'],
        key_chars(plain_key(KeyCode::Esc, kind)) == seq!['\x1b'],
        key_chars(plain_key(KeyCode::BackTab, kind)) == seq!['\x1b', '[', 'Z'],
{
    let m = KeyModifiers { bits: 0 };
    assert(!spec_has(m, ALT) && !spec_has(m, SHIFT) && !spec_has(m, CONTROL)) by {
        assert((0u8 & 4u8) != 4u8 && (0u8 & 1u8) != 1u8 && (0u8 & 2u8) != 2u8) by (bit_vector);
    }
    assert(!any_mod(m));
    assert((0u8 & !4u8) == 0u8) by (bit_vector);
    assert(CONTROL != 0 && (CONTROL | SHIFT) != 0 && SHIFT != 0) by (bit_vector);
    assert(alt_prefix(m) =~= Seq::<char>::empty());
    assert(Seq::<char>::empty().push('\r') =~= seq!['\r']);
    assert(Seq::<char>::empty().push('\x7f') =~= seq!['\x7f']);
    assert(Seq::<char>::empty().push('\x1b') =~= seq!['\x1b']);
    assert(Seq::<char>::empty() + seq!['\t'] =~= seq!['\t']);
}

} // verus!
