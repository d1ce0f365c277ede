//! Decisions of the system-wide keyboard hook.
//!
//! The hook shows the current word on screen as it is typed. For each key it
//! asks the engine for the new word and replaces what is shown by sending
//! backspaces and characters. The decisions live here; the hook itself
//! (reading keys and sending input) stays with the platform layer.
use vstd::prelude::*;
use crate::config::EngineConfig;
use crate::engine::{
    backspace_spec, current_output, enter_spec, is_special_punct, process_key_spec, reset_spec,
    Engine, EngineModel,
};
use crate::text::{
    byte_len, char_is_whitespace, str_is_empty, chars_of, contains_chars, copy_string,
    is_ascii_punct, is_ascii_punctuation, is_whitespace, seq_contains, str_eq, str_lowercase,
    str_to_lowercase, string_of, sub_chars, utf8_len,
};

verus! {

/// Virtual-key code of Backspace.
pub const VK_BACK: u32 = 0x08;
/// Virtual-key code of Enter.
pub const VK_RETURN: u32 = 0x0D;
/// Virtual-key code of Shift.
pub const VK_SHIFT: u32 = 0x10;
/// Virtual-key code of Ctrl.
pub const VK_CONTROL: u32 = 0x11;
/// Virtual-key code of Alt.
pub const VK_MENU: u32 = 0x12;
/// Virtual-key code of Escape.
pub const VK_ESCAPE: u32 = 0x1B;
/// Virtual-key code of Page Up.
pub const VK_PRIOR: u32 = 0x21;
/// Virtual-key code of Page Down.
pub const VK_NEXT: u32 = 0x22;
/// Virtual-key code of End.
pub const VK_END: u32 = 0x23;
/// Virtual-key code of Home.
pub const VK_HOME: u32 = 0x24;
/// Virtual-key code of the left arrow.
pub const VK_LEFT: u32 = 0x25;
/// Virtual-key code of the up arrow.
pub const VK_UP: u32 = 0x26;
/// Virtual-key code of the right arrow.
pub const VK_RIGHT: u32 = 0x27;
/// Virtual-key code of the down arrow.
pub const VK_DOWN: u32 = 0x28;
/// Virtual-key code of Delete.
pub const VK_DELETE: u32 = 0x2E;
/// Virtual-key code of the left Windows key.
pub const VK_LWIN: u32 = 0x5B;
/// Virtual-key code of the right Windows key.
pub const VK_RWIN: u32 = 0x5C;
/// Virtual-key code of the left Shift.
pub const VK_LSHIFT: u32 = 0xA0;
/// Virtual-key code of the right Shift.
pub const VK_RSHIFT: u32 = 0xA1;
/// Virtual-key code of the left Ctrl.
pub const VK_LCONTROL: u32 = 0xA2;
/// Virtual-key code of the right Ctrl.
pub const VK_RCONTROL: u32 = 0xA3;

/// The longest common prefix of two character sequences.
pub open spec fn common_prefix(a: Seq<char>, b: Seq<char>) -> Seq<char>
    decreases a.len(),
{
    if a.len() == 0 || b.len() == 0 || a[0] != b[0] {
        Seq::empty()
    } else {
        seq![a[0]] + common_prefix(a.skip(1), b.skip(1))
    }
}

/// The common prefix starts both sequences.
pub proof fn lemma_common_prefix(a: Seq<char>, b: Seq<char>)
    ensures
        common_prefix(a, b).len() <= a.len(),
        common_prefix(a, b).len() <= b.len(),
        common_prefix(a, b) == a.take(common_prefix(a, b).len() as int),
        common_prefix(a, b) == b.take(common_prefix(a, b).len() as int),
    decreases a.len(),
{
    if !(a.len() == 0 || b.len() == 0 || a[0] != b[0]) {
        lemma_common_prefix(a.skip(1), b.skip(1));
        let n = common_prefix(a.skip(1), b.skip(1)).len();
        assert(common_prefix(a, b) =~= a.take(n as int + 1));
        assert(common_prefix(a, b) =~= b.take(n as int + 1));
    } else {
        assert(common_prefix(a, b) =~= a.take(0));
        assert(common_prefix(a, b) =~= b.take(0));
    }
}

/// The characters that two strings start with in common.
pub fn get_common_prefix(s1: &str, s2: &str) -> (r: String)
    ensures
        r@ == common_prefix(s1@, s2@),
{
    let a = chars_of(s1);
    let b = chars_of(s2);
    let mut i: usize = 0;
    assert(a@.skip(0) == a@ && b@.skip(0) == b@);
    assert(a@.take(0) + common_prefix(a@, b@) == common_prefix(a@, b@));
    while i < a.len() && i < b.len() && a[i] == b[i]
        invariant
            i <= a.len(),
            i <= b.len(),
            a@.take(i as int) + common_prefix(a@.skip(i as int), b@.skip(i as int))
                == common_prefix(a@, b@),
        decreases a.len() - i,
    {
        let ghost ra = a@.skip(i as int);
        let ghost rb = b@.skip(i as int);
        assert(ra.skip(1) == a@.skip(i + 1));
        assert(rb.skip(1) == b@.skip(i + 1));
        assert(a@.take(i as int) + (seq![ra[0]] + common_prefix(ra.skip(1), rb.skip(1)))
            =~= a@.take(i + 1) + common_prefix(ra.skip(1), rb.skip(1)));
        i += 1;
    }
    assert(common_prefix(a@.skip(i as int), b@.skip(i as int)) =~= Seq::<char>::empty());
    assert(a@.take(i as int) + Seq::<char>::empty() =~= a@.take(i as int));
    string_of(sub_chars(a.as_slice(), 0, i).as_slice())
}

/// How to turn the text `shown` into `target` by typing at its end: the
/// number of backspaces, then the characters to type.
pub open spec fn edit_to(shown: Seq<char>, target: Seq<char>) -> (nat, Seq<char>) {
    let n = common_prefix(shown, target).len();
    ((shown.len() - n) as nat, target.skip(n as int))
}

/// Backspaces and text that turn `shown` into `target`.
fn edit_between(shown: &String, target: &String) -> (r: (usize, String))
    ensures
        r.0 == edit_to(shown@, target@).0,
        r.1@ == edit_to(shown@, target@).1,
{
    let prefix = get_common_prefix(shown.as_str(), target.as_str());
    proof {
        lemma_common_prefix(shown@, target@);
    }
    let s = chars_of(shown.as_str());
    let t = chars_of(target.as_str());
    let p = chars_of(prefix.as_str());
    let text = string_of(sub_chars(t.as_slice(), p.len(), t.len()).as_slice());
    assert(t@.subrange(p@.len() as int, t@.len() as int) =~= t@.skip(p@.len() as int));
    (s.len() - p.len(), text)
}

/// What a switch shortcut such as "Ctrl+Alt+S" asks for.
pub struct ShortcutReq {
    pub ctrl: bool,
    pub alt: bool,
    pub shift: bool,
    pub win: bool,
    /// The name of the main key; empty when there is none.
    pub key: Seq<char>,
}

/// One '+'-separated part of a shortcut: a modifier name, or else the main
/// key (the last such part wins).
pub open spec fn apply_part(r: ShortcutReq, part: Seq<char>) -> ShortcutReq {
    if part == "Ctrl"@ {
        ShortcutReq { ctrl: true, ..r }
    } else if part == "Alt"@ {
        ShortcutReq { alt: true, ..r }
    } else if part == "Shift"@ {
        ShortcutReq { shift: true, ..r }
    } else if part == "Win"@ {
        ShortcutReq { win: true, ..r }
    } else {
        ShortcutReq { key: part, ..r }
    }
}

/// Reading a shortcut from the left, split at '+': the requirements of the
/// finished parts, and the part being read.
pub open spec fn scan_shortcut(s: Seq<char>) -> (ShortcutReq, Seq<char>)
    decreases s.len(),
{
    if s.len() == 0 {
        (ShortcutReq { ctrl: false, alt: false, shift: false, win: false, key: Seq::empty() }, Seq::empty())
    } else {
        let (r, cur) = scan_shortcut(s.drop_last());
        if s.last() == '+' {
            (apply_part(r, cur), Seq::empty())
        } else {
            (r, cur.push(s.last()))
        }
    }
}

/// The requirements of a whole shortcut.
pub open spec fn shortcut_req(s: Seq<char>) -> ShortcutReq {
    apply_part(scan_shortcut(s).0, scan_shortcut(s).1)
}

/// The virtual-key code of a key name: letters A-Z, digits D0-D9, function
/// keys F1-F12 and a few named keys; 0 for any other name.
pub open spec fn vk_of_name(n: Seq<char>) -> u32 {
    if n.len() == 1 && 'A' <= n[0] <= 'Z' {
        n[0] as u32
    } else if n.len() == 2 && n[0] == 'D' && '0' <= n[1] <= '9' {
        n[1] as u32
    } else if n.len() == 2 && n[0] == 'F' && '1' <= n[1] <= '9' {
        (0x70 + (n[1] as u32 - 0x31)) as u32
    } else if n.len() == 3 && n[0] == 'F' && n[1] == '1' && '0' <= n[2] <= '2' {
        (0x79 + (n[2] as u32 - 0x30)) as u32
    } else if n == "Space"@ {
        0x20
    } else if n == "Return"@ {
        0x0D
    } else if n == "Tab"@ {
        0x09
    } else if n == "Escape"@ {
        0x1B
    } else if n == "Back"@ {
        0x08
    } else if n == "Delete"@ {
        0x2E
    } else {
        0
    }
}

pub open spec fn is_shift_vk(vk: u32) -> bool {
    vk == VK_SHIFT || vk == VK_LSHIFT || vk == VK_RSHIFT
}

pub open spec fn is_ctrl_vk(vk: u32) -> bool {
    vk == VK_CONTROL || vk == VK_LCONTROL || vk == VK_RCONTROL
}

/// Whether a key press with the given modifiers held triggers the switch
/// shortcut. "Ctrl+Shift" fires on pressing one of the two with the other
/// held; any other shortcut needs exactly its modifiers and its main key.
pub open spec fn shortcut_triggered(
    s: Seq<char>,
    vk: u32,
    ctrl: bool,
    alt: bool,
    shift: bool,
    win: bool,
) -> bool {
    if s.len() == 0 {
        false
    } else if s == "Ctrl+Shift"@ {
        (ctrl && is_shift_vk(vk)) || (shift && is_ctrl_vk(vk))
    } else {
        let r = shortcut_req(s);
        &&& ctrl == r.ctrl
        &&& alt == r.alt
        &&& shift == r.shift
        &&& win == r.win
        &&& r.key.len() > 0
        &&& vk == vk_of_name(r.key)
    }
}

/// Which modifier a part names: 1 Ctrl, 2 Alt, 3 Shift, 4 Win, 0 none.
fn modifier_of(part: &Vec<char>) -> (r: u8)
    ensures
        r == 1 <==> part@ == "Ctrl"@,
        r == 2 <==> (part@ != "Ctrl"@ && part@ == "Alt"@),
        r == 3 <==> (part@ != "Ctrl"@ && part@ != "Alt"@ && part@ == "Shift"@),
        r == 4 <==> (part@ != "Ctrl"@ && part@ != "Alt"@ && part@ != "Shift"@ && part@ == "Win"@),
        r == 0 <==> (part@ != "Ctrl"@ && part@ != "Alt"@ && part@ != "Shift"@ && part@ != "Win"@),
{
    let p = string_of(part.as_slice());
    if str_eq(p.as_str(), "Ctrl") {
        1
    } else if str_eq(p.as_str(), "Alt") {
        2
    } else if str_eq(p.as_str(), "Shift") {
        3
    } else if str_eq(p.as_str(), "Win") {
        4
    } else {
        0
    }
}

/// The virtual-key code of a key name.
fn vk_code_of(n: &Vec<char>) -> (r: u32)
    ensures
        r == vk_of_name(n@),
{
    let s = string_of(n.as_slice());
    if n.len() == 1 && 'A' <= n[0] && n[0] <= 'Z' {
        n[0] as u32
    } else if n.len() == 2 && n[0] == 'D' && '0' <= n[1] && n[1] <= '9' {
        n[1] as u32
    } else if n.len() == 2 && n[0] == 'F' && '1' <= n[1] && n[1] <= '9' {
        0x70 + (n[1] as u32 - 0x31)
    } else if n.len() == 3 && n[0] == 'F' && n[1] == '1' && '0' <= n[2] && n[2] <= '2' {
        0x79 + (n[2] as u32 - 0x30)
    } else if str_eq(s.as_str(), "Space") {
        0x20
    } else if str_eq(s.as_str(), "Return") {
        0x0D
    } else if str_eq(s.as_str(), "Tab") {
        0x09
    } else if str_eq(s.as_str(), "Escape") {
        0x1B
    } else if str_eq(s.as_str(), "Back") {
        0x08
    } else if str_eq(s.as_str(), "Delete") {
        0x2E
    } else {
        0
    }
}

/// Whether a key press triggers the language-switch shortcut `shortcut`
/// (such as "Ctrl+Shift" or "Ctrl+Alt+S"), given which modifiers are held.
pub fn is_shortcut_triggered(
    shortcut: &str,
    vk_code: u32,
    ctrl: bool,
    alt: bool,
    shift: bool,
    win: bool,
) -> (r: bool)
    ensures
        r == shortcut_triggered(shortcut@, vk_code, ctrl, alt, shift, win),
{
    let cs = chars_of(shortcut);
    if cs.len() == 0 {
        return false;
    }
    if str_eq(shortcut, "Ctrl+Shift") {
        let is_shift_key = vk_code == VK_SHIFT || vk_code == VK_LSHIFT || vk_code == VK_RSHIFT;
        let is_ctrl_key = vk_code == VK_CONTROL || vk_code == VK_LCONTROL || vk_code
            == VK_RCONTROL;
        return (ctrl && is_shift_key) || (shift && is_ctrl_key);
    }
    let mut req_ctrl = false;
    let mut req_alt = false;
    let mut req_shift = false;
    let mut req_win = false;
    let mut target: Vec<char> = Vec::new();
    let mut cur: Vec<char> = Vec::new();
    let mut i: usize = 0;
    assert(cs@.take(0) =~= Seq::<char>::empty());
    while i < cs.len()
        invariant
            i <= cs.len(),
            scan_shortcut(cs@.take(i as int)) == (ShortcutReq {
                ctrl: req_ctrl,
                alt: req_alt,
                shift: req_shift,
                win: req_win,
                key: target@,
            }, cur@),
        decreases cs.len() - i,
    {
        assert(cs@.take(i + 1).drop_last() =~= cs@.take(i as int));
        if cs[i] == '+' {
            let k = modifier_of(&cur);
            if k == 1 {
                req_ctrl = true;
            } else if k == 2 {
                req_alt = true;
            } else if k == 3 {
                req_shift = true;
            } else if k == 4 {
                req_win = true;
            } else {
                target = cur;
            }
            cur = Vec::new();
        } else {
            cur.push(cs[i]);
        }
        i += 1;
    }
    assert(cs@.take(i as int) =~= cs@);
    let k = modifier_of(&cur);
    if k == 1 {
        req_ctrl = true;
    } else if k == 2 {
        req_alt = true;
    } else if k == 3 {
        req_shift = true;
    } else if k == 4 {
        req_win = true;
    } else {
        target = cur;
    }
    if ctrl != req_ctrl || alt != req_alt || shift != req_shift || win != req_win {
        return false;
    }
    if target.len() == 0 {
        return false;
    }
    vk_code == vk_code_of(&target)
}

/// The keystrokes typed on the hook's behalf: a virtual key (`unicode`
/// false) or a UTF-16 unit (`unicode` true), pressed or released.
#[derive(Debug, Clone, Copy, PartialEq, Eq, Structural)]
pub struct KeyStroke {
    pub vk: u16,
    pub scan: u16,
    pub unicode: bool,
    pub key_up: bool,
}

/// The UTF-16 encoding of a character.
pub open spec fn utf16_of(c: char) -> Seq<u16> {
    let v = c as u32;
    if v < 0x10000 {
        seq![v as u16]
    } else {
        seq![(0xD800 + (v - 0x10000) / 0x400) as u16, (0xDC00 + (v - 0x10000) % 0x400) as u16]
    }
}

/// The UTF-16 encoding of a character sequence.
pub open spec fn utf16_units(s: Seq<char>) -> Seq<u16>
    decreases s.len(),
{
    if s.len() == 0 {
        Seq::empty()
    } else {
        utf16_units(s.drop_last()) + utf16_of(s.last())
    }
}

/// `n` presses and releases of Backspace.
pub open spec fn backspace_strokes(n: nat) -> Seq<KeyStroke>
    decreases n,
{
    if n == 0 {
        Seq::empty()
    } else {
        backspace_strokes((n - 1) as nat) + seq![
            KeyStroke { vk: VK_BACK as u16, scan: 0, unicode: false, key_up: false },
            KeyStroke { vk: VK_BACK as u16, scan: 0, unicode: false, key_up: true },
        ]
    }
}

/// A press and a release for each UTF-16 unit.
pub open spec fn unit_strokes(units: Seq<u16>) -> Seq<KeyStroke>
    decreases units.len(),
{
    if units.len() == 0 {
        Seq::empty()
    } else {
        unit_strokes(units.drop_last()) + seq![
            KeyStroke { vk: 0, scan: units.last(), unicode: true, key_up: false },
            KeyStroke { vk: 0, scan: units.last(), unicode: true, key_up: true },
        ]
    }
}

proof fn lemma_unit_strokes_append(a: Seq<u16>, b: Seq<u16>)
    ensures
        unit_strokes(a + b) == unit_strokes(a) + unit_strokes(b),
    decreases b.len(),
{
    if b.len() == 0 {
        assert(a + b =~= a);
        assert(unit_strokes(a) + unit_strokes(b) =~= unit_strokes(a));
    } else {
        assert((a + b).drop_last() =~= a + b.drop_last());
        lemma_unit_strokes_append(a, b.drop_last());
        assert((a + b).last() == b.last());
        assert(unit_strokes(a + b) =~= unit_strokes(a) + unit_strokes(b));
    }
}

/// The keystrokes that erase `backspaces` characters and then type `text`,
/// sent to the system in one batch.
pub fn keystroke_plan(backspaces: usize, text: &str) -> (r: Vec<KeyStroke>)
    ensures
        r@ == backspace_strokes(backspaces as nat) + unit_strokes(utf16_units(text@)),
{
    let mut r: Vec<KeyStroke> = Vec::new();
    let mut n: usize = 0;
    while n < backspaces
        invariant
            n <= backspaces,
            r@ == backspace_strokes(n as nat),
        decreases backspaces - n,
    {
        r.push(KeyStroke { vk: VK_BACK as u16, scan: 0, unicode: false, key_up: false });
        r.push(KeyStroke { vk: VK_BACK as u16, scan: 0, unicode: false, key_up: true });
        n += 1;
        assert(r@ =~= backspace_strokes(n as nat));
    }
    let cs = chars_of(text);
    let ghost base = r@;
    let mut i: usize = 0;
    assert(cs@.take(0) =~= Seq::<char>::empty());
    assert(base + unit_strokes(utf16_units(cs@.take(0))) =~= base);
    while i < cs.len()
        invariant
            i <= cs.len(),
            base == backspace_strokes(backspaces as nat),
            r@ == base + unit_strokes(utf16_units(cs@.take(i as int))),
        decreases cs.len() - i,
    {
        let c = cs[i];
        let v = c as u32;
        let ghost before = utf16_units(cs@.take(i as int));
        assert(cs@.take(i + 1).drop_last() =~= cs@.take(i as int));
        assert(utf16_units(cs@.take(i + 1)) == before + utf16_of(c));
        proof {
            lemma_unit_strokes_append(before, utf16_of(c));
        }
        if v < 0x10000 {
            let u = v as u16;
            r.push(KeyStroke { vk: 0, scan: u, unicode: true, key_up: false });
            r.push(KeyStroke { vk: 0, scan: u, unicode: true, key_up: true });
            assert(unit_strokes(seq![u]) =~= seq![
                KeyStroke { vk: 0, scan: u, unicode: true, key_up: false },
                KeyStroke { vk: 0, scan: u, unicode: true, key_up: true },
            ]) by {
                reveal_with_fuel(unit_strokes, 2);
                assert(seq![u].drop_last() =~= Seq::<u16>::empty());
            }
        } else {
            let hi = (0xD800 + (v - 0x10000) / 0x400) as u16;
            let lo = (0xDC00 + (v - 0x10000) % 0x400) as u16;
            r.push(KeyStroke { vk: 0, scan: hi, unicode: true, key_up: false });
            r.push(KeyStroke { vk: 0, scan: hi, unicode: true, key_up: true });
            r.push(KeyStroke { vk: 0, scan: lo, unicode: true, key_up: false });
            r.push(KeyStroke { vk: 0, scan: lo, unicode: true, key_up: true });
            assert(unit_strokes(seq![hi, lo]) =~= seq![
                KeyStroke { vk: 0, scan: hi, unicode: true, key_up: false },
                KeyStroke { vk: 0, scan: hi, unicode: true, key_up: true },
                KeyStroke { vk: 0, scan: lo, unicode: true, key_up: false },
                KeyStroke { vk: 0, scan: lo, unicode: true, key_up: true },
            ]) by {
                reveal_with_fuel(unit_strokes, 3);
                assert(seq![hi, lo].drop_last() =~= seq![hi]);
                assert(seq![hi].drop_last() =~= Seq::<u16>::empty());
            }
        }
        i += 1;
        assert(r@ =~= base + unit_strokes(utf16_units(cs@.take(i as int))));
    }
    assert(cs@.take(cs.len() as int) =~= text@);
    r
}

/// A key press as the hook sees it.
#[derive(Debug, Clone, Copy)]
pub struct KeyEvent {
    pub vk_code: u32,
    /// The press was sent by this program itself.
    pub injected: bool,
    pub ctrl: bool,
    pub alt: bool,
    pub shift: bool,
    pub win: bool,
    /// A mouse button is held.
    pub mouse_down: bool,
}

/// What the hook does with a key press.
#[derive(Debug)]
pub enum HookAction {
    /// Let the key through.
    Pass,
    /// The shortcut switched Vietnamese input on (true) or off: report it and
    /// swallow the key.
    Toggled(bool),
    /// Send `backspaces` backspaces and then `text`; afterwards let the key
    /// through if `pass_key`, else swallow it.
    Replace { backspaces: usize, text: String, pass_key: bool },
}

/// The mathematical content of a hook action.
pub enum HookOutcome {
    Pass,
    Toggled(bool),
    Replace(nat, Seq<char>, bool),
}

impl HookAction {
    pub open spec fn outcome(self) -> HookOutcome {
        match self {
            HookAction::Pass => HookOutcome::Pass,
            HookAction::Toggled(on) => HookOutcome::Toggled(on),
            HookAction::Replace { backspaces, text, pass_key } => HookOutcome::Replace(
                backspaces as nat,
                text@,
                pass_key,
            ),
        }
    }
}

/// The hook's own state.
#[verifier::ext_equal]
pub struct HookModel {
    /// The current word as shown on screen.
    pub current_word: Seq<char>,
    /// The last characters typed, for the developer-mode password.
    pub raw_history: Seq<char>,
    /// Whether the password was typed since it was last checked.
    pub raw_match_found: bool,
}

/// The hook's own state: what it has shown of the current word, and the
/// history of typed characters.
pub struct HookState {
    pub current_word: String,
    pub raw_history: String,
    pub raw_match_found: bool,
}

impl View for HookState {
    type V = HookModel;

    open spec fn view(&self) -> HookModel {
        HookModel {
            current_word: self.current_word@,
            raw_history: self.raw_history@,
            raw_match_found: self.raw_match_found,
        }
    }
}

/// A typed character enters the history, which keeps its last 30 bytes; when
/// the lowercase history contains "vnkdev" it is cleared and a match is
/// reported.
pub open spec fn raw_history_step(h: Seq<char>, ch: char) -> (Seq<char>, bool) {
    let h1 = h.push(ch);
    let h2 = if utf8_len(h1) > 30 {
        h1.drop_first()
    } else {
        h1
    };
    if seq_contains(str_lowercase(h2), "vnkdev"@) {
        (Seq::empty(), true)
    } else {
        (h2, false)
    }
}

/// Navigation keys, Delete, Escape and Enter end the current word.
pub open spec fn is_nav_vk(vk: u32) -> bool {
    vk == VK_LEFT || vk == VK_RIGHT || vk == VK_UP || vk == VK_DOWN || vk == VK_HOME || vk
        == VK_END || vk == VK_PRIOR || vk == VK_NEXT || vk == VK_DELETE || vk == VK_ESCAPE || vk
        == VK_RETURN
}

/// The decision for a key press before its character is known: the new
/// shown word, the new engine state and the action; `None` when the key is a
/// character key for `char_key_spec`.
pub open spec fn key_event_spec(cw: Seq<char>, m: EngineModel, ev: KeyEvent) -> Option<
    (Seq<char>, EngineModel, HookOutcome),
> {
    if ev.injected {
        Some((cw, m, HookOutcome::Pass))
    } else if shortcut_triggered(
        m.config.switch_shortcut@,
        ev.vk_code,
        ev.ctrl,
        ev.alt,
        ev.shift,
        ev.win,
    ) {
        let on = !m.config.vietnamese_mode;
        let m1 = EngineModel { config: EngineConfig { vietnamese_mode: on, ..m.config }, ..m };
        Some((Seq::empty(), reset_spec(m1), HookOutcome::Toggled(on)))
    } else if ev.ctrl || ev.alt || ev.win {
        Some((Seq::empty(), reset_spec(m), HookOutcome::Pass))
    } else if is_nav_vk(ev.vk_code) || ev.mouse_down {
        if ev.vk_code == VK_RETURN {
            let (m1, word) = enter_spec(m);
            if word.len() > 0 && word != cw {
                Some((Seq::empty(), m1, HookOutcome::Replace(cw.len(), word, true)))
            } else {
                Some((Seq::empty(), m1, HookOutcome::Pass))
            }
        } else {
            Some((Seq::empty(), reset_spec(m), HookOutcome::Pass))
        }
    } else if ev.vk_code == VK_BACK {
        let (m1, handled) = backspace_spec(m);
        if handled {
            let t = current_output(m1);
            Some((t, m1, HookOutcome::Replace(edit_to(cw, t).0, edit_to(cw, t).1, false)))
        } else {
            Some((Seq::empty(), m1, HookOutcome::Pass))
        }
    } else {
        None
    }
}

/// The decision for a character key: the history is updated, the engine
/// processes the character, and the shown word is replaced by the engine's
/// word when it differs from simply typing the character.
pub open spec fn char_key_spec(h: HookModel, m: EngineModel, ch: char) -> (
    HookModel,
    EngineModel,
    HookOutcome,
) {
    if ch == '\0' {
        (h, m, HookOutcome::Pass)
    } else {
        let (hist, found) = raw_history_step(h.raw_history, ch);
        let sep = char_is_whitespace(ch) || (is_ascii_punct(ch) && !is_special_punct(m.mode, ch));
        let was_empty = m.buffer.len() == 0;
        let (m1, word) = process_key_spec(m, ch);
        let shown = if was_empty {
            Seq::empty()
        } else {
            h.current_word
        };
        let h1 = HookModel {
            current_word: if sep && was_empty {
                Seq::empty()
            } else {
                word
            },
            raw_history: hist,
            raw_match_found: h.raw_match_found || found,
        };
        if word != shown.push(ch) {
            (h1, m1, HookOutcome::Replace(edit_to(shown, word).0, edit_to(shown, word).1, false))
        } else {
            (h1, m1, HookOutcome::Pass)
        }
    }
}

impl HookState {
    /// A hook that has shown nothing yet.
    pub fn new() -> (r: Self)
        ensures
            r@ == (HookModel {
                current_word: Seq::empty(),
                raw_history: Seq::empty(),
                raw_match_found: false,
            }),
    {
        HookState { current_word: String::new(), raw_history: String::new(), raw_match_found: false }
    }

    /// Whether the developer-mode password was typed since the last check;
    /// the flag is cleared.
    pub fn check_and_reset_raw_match(&mut self) -> (r: bool)
        ensures
            r == old(self)@.raw_match_found,
            final(self)@ == (HookModel { raw_match_found: false, ..old(self)@ }),
    {
        let val = self.raw_match_found;
        self.raw_match_found = false;
        val
    }

    /// The recent history of typed characters.
    pub fn get_raw_history(&self) -> (r: String)
        ensures
            r@ == self@.raw_history,
    {
        copy_string(&self.raw_history)
    }

    /// Records a typed character in the history.
    pub fn record_raw_key(&mut self, ch: char)
        ensures
            final(self)@ == (HookModel {
                raw_history: raw_history_step(old(self)@.raw_history, ch).0,
                raw_match_found: old(self)@.raw_match_found || raw_history_step(
                    old(self)@.raw_history,
                    ch,
                ).1,
                ..old(self)@
            }),
    {
        self.raw_history.push(ch);
        if byte_len(&self.raw_history) > 30 {
            let cs = chars_of(self.raw_history.as_str());
            let rest = sub_chars(cs.as_slice(), 1, cs.len());
            assert(rest@ =~= cs@.drop_first());
            self.raw_history = string_of(rest.as_slice());
        }
        let lower = str_to_lowercase(self.raw_history.as_str());
        let lc = chars_of(lower.as_str());
        let pat = chars_of("vnkdev");
        if contains_chars(&lc, pat.as_slice()) {
            self.raw_match_found = true;
            self.raw_history.clear();
        }
    }

    /// A mouse click moves the caret: the current word is over.
    pub fn on_mouse_click(&mut self, engine: &mut Engine)
        ensures
            final(engine)@ == reset_spec(old(engine)@),
            final(self)@ == (HookModel { current_word: Seq::empty(), ..old(self)@ }),
    {
        engine.reset();
        self.current_word.clear();
    }

    /// Decides what to do with a key press before its character is looked
    /// up; `None` means the key is a character key for `on_char_key`.
    pub fn on_key_event(&mut self, engine: &mut Engine, ev: KeyEvent) -> (r: Option<HookAction>)
        ensures
            match key_event_spec(old(self)@.current_word, old(engine)@, ev) {
                Some((cw, m, out)) => {
                    &&& r matches Some(a) && a.outcome() == out
                    &&& final(engine)@ == m
                    &&& final(self)@ == (HookModel { current_word: cw, ..old(self)@ })
                },
                None => {
                    &&& r is None
                    &&& final(engine)@ == old(engine)@
                    &&& final(self)@ == old(self)@
                },
            },
    {
        if ev.injected {
            return Some(HookAction::Pass);
        }
        let triggered = is_shortcut_triggered(
            engine.config().switch_shortcut.as_str(),
            ev.vk_code,
            ev.ctrl,
            ev.alt,
            ev.shift,
            ev.win,
        );
        if triggered {
            let on = !engine.config().vietnamese_mode;
            engine.set_vietnamese_mode(on);
            engine.reset();
            self.current_word.clear();
            return Some(HookAction::Toggled(on));
        }
        if ev.ctrl || ev.alt || ev.win {
            engine.reset();
            self.current_word.clear();
            return Some(HookAction::Pass);
        }
        let vk = ev.vk_code;
        if vk == VK_LEFT || vk == VK_RIGHT || vk == VK_UP || vk == VK_DOWN || vk == VK_HOME || vk
            == VK_END || vk == VK_PRIOR || vk == VK_NEXT || vk == VK_DELETE || vk == VK_ESCAPE
            || vk == VK_RETURN || ev.mouse_down {
            if vk == VK_RETURN {
                let expansion = engine.on_enter();
                let mut action = HookAction::Pass;
                if !str_is_empty(&expansion) && !str_eq(
                    expansion.as_str(),
                    self.current_word.as_str(),
                ) {
                    let backspaces = chars_of(self.current_word.as_str()).len();
                    action = HookAction::Replace { backspaces, text: expansion, pass_key: true };
                }
                self.current_word.clear();
                return Some(action);
            }
            engine.reset();
            self.current_word.clear();
            return Some(HookAction::Pass);
        }
        if vk == VK_BACK {
            if engine.process_backspace() {
                let state = engine.get_state();
                let (backspaces, text) = edit_between(&self.current_word, &state.transformed);
                self.current_word = state.transformed;
                return Some(HookAction::Replace { backspaces, text, pass_key: false });
            }
            self.current_word.clear();
            return Some(HookAction::Pass);
        }
        None
    }

    /// Decides what to do with a character key once its character is known
    /// (`'\0'` when the key types none).
    pub fn on_char_key(&mut self, engine: &mut Engine, ch: char) -> (r: HookAction)
        ensures
            final(self)@ == char_key_spec(old(self)@, old(engine)@, ch).0,
            final(engine)@ == char_key_spec(old(self)@, old(engine)@, ch).1,
            r.outcome() == char_key_spec(old(self)@, old(engine)@, ch).2,
    {
        if ch == '\0' {
            return HookAction::Pass;
        }
        self.record_raw_key(ch);
        let is_separator = is_whitespace(ch) || (is_ascii_punctuation(ch)
            && !engine.is_special_punctuation(ch));
        let old_buffer_empty = engine.buffer().is_empty();
        let new_word = engine.process_key(ch);
        let should_reset_sync = old_buffer_empty && !is_separator;
        let is_hard_reset = is_separator && old_buffer_empty;
        if should_reset_sync || is_hard_reset {
            self.current_word.clear();
        }
        let mut base_word = copy_string(&self.current_word);
        base_word.push(ch);
        let mut action = HookAction::Pass;
        if !str_eq(new_word.as_str(), base_word.as_str()) {
            let (backspaces, text) = edit_between(&self.current_word, &new_word);
            action = HookAction::Replace { backspaces, text, pass_key: false };
        }
        if is_hard_reset {
            self.current_word.clear();
        } else {
            self.current_word = new_word;
        }
        action
    }
}

/// Sending the planned backspaces and text turns the shown word into the
/// target.
pub proof fn law_edit_reaches_target(shown: Seq<char>, target: Seq<char>)
    ensures
        edit_to(shown, target).0 <= shown.len(),
        shown.take(shown.len() - edit_to(shown, target).0) + edit_to(shown, target).1 == target,
{
    lemma_common_prefix(shown, target);
    let n = common_prefix(shown, target).len();
    assert(shown.take(n as int) + target.skip(n as int) =~= target);
}

/// The key name of function key k: "F" followed by k in decimal.
pub open spec fn function_key_name(k: int) -> Seq<char> {
    if k <= 9 {
        seq!['F', (0x30 + k) as char]
    } else {
        seq!['F', '1', (0x30 + k - 10) as char]
    }
}

/// The function keys F1 to F12 have the consecutive virtual-key codes 0x70
/// (VK_F1) to 0x7B (VK_F12), across F9 and F10 as well.
pub proof fn law_function_key_codes(k: int)
    requires
        1 <= k <= 12,
    ensures
        vk_of_name(function_key_name(k)) == 0x70 + k - 1,
{
    let n = function_key_name(k);
    if k <= 9 {
        assert(n[1] as u32 == 0x30 + k);
    } else {
        assert(n[2] as u32 == 0x30 + k - 10);
    }
}

/// A letter key is named by its capital letter and a digit key by D and the
/// digit; their virtual-key codes are the ASCII codes of that letter or
/// digit.
pub proof fn law_letter_and_digit_key_codes(c: char)
    ensures
        'A' <= c <= 'Z' ==> vk_of_name(seq![c]) == c as u32,
        '0' <= c <= '9' ==> vk_of_name(seq!['D', c]) == c as u32,
{
}

} // verus!
