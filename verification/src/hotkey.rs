//! Ghost-mode hotkeys: parsing a shortcut such as `Ctrl+Alt+G` into a chord of
//! Windows virtual-key codes, and recognising that chord in a stream of
//! low-level keyboard events.

use vstd::prelude::*;
use crate::text::{
    all_digits, first_index_of, is_white, lemma_first_index_bounds, lemma_first_index_shift, trim_end, trim_start, ascii_upper, chars_are, chars_of, decimal_digits, lemma_decimal_digits_are_digits, lemma_decimal_digits_value, is_digit, unsigned_digits, concat_chars, lower_chars, lower_seq, parse_u64, parse_unsigned, split_chars,
    split_on, string_from_chars, take_chars_exec, trim, trim_chars, upper_chars, upper_seq,
};

verus! {

broadcast use vstd::string::group_string_axioms;

/// Left/right variants of Shift, Ctrl, Alt and the Windows key map to the
/// generic code.
pub open spec fn normalized_key(virtual_key: u32) -> u32 {
    if virtual_key == 0xa0 || virtual_key == 0xa1 {
        0x10
    } else if virtual_key == 0xa2 || virtual_key == 0xa3 {
        0x11
    } else if virtual_key == 0xa4 || virtual_key == 0xa5 {
        0x12
    } else if virtual_key == 0x5c {
        0x5b
    } else {
        virtual_key
    }
}

pub fn normalized_hotkey_virtual_key(virtual_key: u32) -> (r: u32)
    ensures
        r == normalized_key(virtual_key),
{
    if virtual_key == 0xa0 || virtual_key == 0xa1 {
        0x10
    } else if virtual_key == 0xa2 || virtual_key == 0xa3 {
        0x11
    } else if virtual_key == 0xa4 || virtual_key == 0xa5 {
        0x12
    } else if virtual_key == 0x5c {
        0x5b
    } else {
        virtual_key
    }
}

/// Shift, Ctrl, Alt or a Windows key (either side).
pub open spec fn is_modifier_key(virtual_key: u32) -> bool {
    let n = normalized_key(virtual_key);
    n == 0x10 || n == 0x11 || n == 0x12 || n == 0x5b
}

pub fn is_hotkey_modifier(virtual_key: u32) -> (b: bool)
    ensures
        b == is_modifier_key(virtual_key),
{
    let n = normalized_hotkey_virtual_key(virtual_key);
    n == 0x10 || n == 0x11 || n == 0x12 || n == 0x5b
}

pub open spec fn is_ascii_alnum(c: char) -> bool {
    ('0' <= c <= '9') || ('A' <= c <= 'Z') || ('a' <= c <= 'z')
}

/// The virtual-key codes of the named keys, looked up by upper-case name.
pub open spec fn named_key(upper: Seq<char>) -> Option<u32> {
    if upper == "BACKSPACE"@ {
        Some(0x08)
    } else if upper == "TAB"@ {
        Some(0x09)
    } else if upper == "ENTER"@ {
        Some(0x0d)
    } else if upper == "ESC"@ {
        Some(0x1b)
    } else if upper == "ESCAPE"@ {
        Some(0x1b)
    } else if upper == "SPACE"@ {
        Some(0x20)
    } else if upper == "PAGEUP"@ {
        Some(0x21)
    } else if upper == "PAGEDOWN"@ {
        Some(0x22)
    } else if upper == "END"@ {
        Some(0x23)
    } else if upper == "HOME"@ {
        Some(0x24)
    } else if upper == "LEFT"@ {
        Some(0x25)
    } else if upper == "UP"@ {
        Some(0x26)
    } else if upper == "RIGHT"@ {
        Some(0x27)
    } else if upper == "DOWN"@ {
        Some(0x28)
    } else if upper == "INSERT"@ {
        Some(0x2d)
    } else if upper == "DELETE"@ {
        Some(0x2e)
    } else if upper == "PRINTSCREEN"@ {
        Some(0x2c)
    } else if upper == "PAUSE"@ {
        Some(0x13)
    } else if upper == "CAPSLOCK"@ {
        Some(0x14)
    } else if upper == "SCROLLLOCK"@ {
        Some(0x91)
    } else if upper == "NUMPADMULTIPLY"@ {
        Some(0x6a)
    } else if upper == "NUMPADADD"@ {
        Some(0x6b)
    } else if upper == "NUMPADSUBTRACT"@ {
        Some(0x6d)
    } else if upper == "NUMPADDECIMAL"@ {
        Some(0x6e)
    } else if upper == "NUMPADDIVIDE"@ {
        Some(0x6f)
    } else if upper == "SEMICOLON"@ {
        Some(0xba)
    } else if upper == "PLUS"@ {
        Some(0xbb)
    } else if upper == "COMMA"@ {
        Some(0xbc)
    } else if upper == "MINUS"@ {
        Some(0xbd)
    } else if upper == "PERIOD"@ {
        Some(0xbe)
    } else if upper == "SLASH"@ {
        Some(0xbf)
    } else if upper == "BACKTICK"@ {
        Some(0xc0)
    } else if upper == "BRACKETLEFT"@ {
        Some(0xdb)
    } else if upper == "BACKSLASH"@ {
        Some(0xdc)
    } else if upper == "BRACKETRIGHT"@ {
        Some(0xdd)
    } else if upper == "QUOTE"@ {
        Some(0xde)
    } else {
        None
    }
}

/// Looks a key up by its upper-case name.
fn named_key_exec(upper: &Vec<char>) -> (r: Option<u32>)
    ensures
        r == named_key(upper@),
{
    if chars_are(upper, "BACKSPACE") {
        return Some(0x08);
    }
    if chars_are(upper, "TAB") {
        return Some(0x09);
    }
    if chars_are(upper, "ENTER") {
        return Some(0x0d);
    }
    if chars_are(upper, "ESC") {
        return Some(0x1b);
    }
    if chars_are(upper, "ESCAPE") {
        return Some(0x1b);
    }
    if chars_are(upper, "SPACE") {
        return Some(0x20);
    }
    if chars_are(upper, "PAGEUP") {
        return Some(0x21);
    }
    if chars_are(upper, "PAGEDOWN") {
        return Some(0x22);
    }
    if chars_are(upper, "END") {
        return Some(0x23);
    }
    if chars_are(upper, "HOME") {
        return Some(0x24);
    }
    if chars_are(upper, "LEFT") {
        return Some(0x25);
    }
    if chars_are(upper, "UP") {
        return Some(0x26);
    }
    if chars_are(upper, "RIGHT") {
        return Some(0x27);
    }
    if chars_are(upper, "DOWN") {
        return Some(0x28);
    }
    if chars_are(upper, "INSERT") {
        return Some(0x2d);
    }
    if chars_are(upper, "DELETE") {
        return Some(0x2e);
    }
    if chars_are(upper, "PRINTSCREEN") {
        return Some(0x2c);
    }
    if chars_are(upper, "PAUSE") {
        return Some(0x13);
    }
    if chars_are(upper, "CAPSLOCK") {
        return Some(0x14);
    }
    if chars_are(upper, "SCROLLLOCK") {
        return Some(0x91);
    }
    if chars_are(upper, "NUMPADMULTIPLY") {
        return Some(0x6a);
    }
    if chars_are(upper, "NUMPADADD") {
        return Some(0x6b);
    }
    if chars_are(upper, "NUMPADSUBTRACT") {
        return Some(0x6d);
    }
    if chars_are(upper, "NUMPADDECIMAL") {
        return Some(0x6e);
    }
    if chars_are(upper, "NUMPADDIVIDE") {
        return Some(0x6f);
    }
    if chars_are(upper, "SEMICOLON") {
        return Some(0xba);
    }
    if chars_are(upper, "PLUS") {
        return Some(0xbb);
    }
    if chars_are(upper, "COMMA") {
        return Some(0xbc);
    }
    if chars_are(upper, "MINUS") {
        return Some(0xbd);
    }
    if chars_are(upper, "PERIOD") {
        return Some(0xbe);
    }
    if chars_are(upper, "SLASH") {
        return Some(0xbf);
    }
    if chars_are(upper, "BACKTICK") {
        return Some(0xc0);
    }
    if chars_are(upper, "BRACKETLEFT") {
        return Some(0xdb);
    }
    if chars_are(upper, "BACKSLASH") {
        return Some(0xdc);
    }
    if chars_are(upper, "BRACKETRIGHT") {
        return Some(0xdd);
    }
    if chars_are(upper, "QUOTE") {
        return Some(0xde);
    }
    None
}

/// The virtual-key code of a non-modifier key name: a single letter or digit,
/// `F1`..`F24`, `NUMPAD0`..`NUMPAD9`, or one of the named keys (any case).
pub open spec fn hotkey_key_code(token: Seq<char>) -> Option<u32> {
    let upper = upper_seq(token);
    if upper.len() == 1 && is_ascii_alnum(upper[0]) {
        Some(upper[0] as u32)
    } else if function_key_code(upper) is Some {
        function_key_code(upper)
    } else if numpad_key_code(upper) is Some {
        numpad_key_code(upper)
    } else {
        named_key(upper)
    }
}

/// `F1`..`F24` (upper case).
pub open spec fn function_key_code(upper: Seq<char>) -> Option<u32> {
    if upper.len() > 0 && upper[0] == 'F' {
        match parse_unsigned(upper.drop_first(), u32::MAX as nat) {
            Some(n) => if 1 <= n <= 24 {
                Some((0x70 + n - 1) as u32)
            } else {
                None
            },
            None => None,
        }
    } else {
        None
    }
}

/// `NUMPAD0`..`NUMPAD9` (upper case).
pub open spec fn numpad_key_code(upper: Seq<char>) -> Option<u32> {
    if upper.len() >= 6 && upper.take(6) == "NUMPAD"@ {
        match parse_unsigned(upper.skip(6), u32::MAX as nat) {
            Some(n) => if n <= 9 {
                Some((0x60 + n) as u32)
            } else {
                None
            },
            None => None,
        }
    } else {
        None
    }
}

fn parse_u32_chars(v: &Vec<char>) -> (r: Option<u32>)
    ensures
        match parse_unsigned(v@, u32::MAX as nat) {
            Some(n) => r == Some(n as u32),
            None => r is None,
        },
{
    match parse_u64(v) {
        Some(n) => {
            if n <= u32::MAX as u64 {
                Some(n as u32)
            } else {
                None
            }
        },
        None => None,
    }
}

fn skip_chars(v: &Vec<char>, n: usize) -> (r: Vec<char>)
    requires
        n <= v.len(),
    ensures
        r@ == v@.skip(n as int),
{
    let mut r: Vec<char> = Vec::new();
    let mut i: usize = n;
    while i < v.len()
        invariant
            n <= i <= v.len(),
            r@ =~= v@.subrange(n as int, i as int),
        decreases v.len() - i,
    {
        r.push(v[i]);
        i = i + 1;
    }
    r
}

/// The virtual-key code of a key name, see `hotkey_key_code`.
pub fn hotkey_virtual_key(token: &str) -> (r: Option<u32>)
    ensures
        r == hotkey_key_code(token@),
{
    let chars = chars_of(token);
    key_code_of_chars(&chars)
}

fn key_code_of_chars(token: &Vec<char>) -> (r: Option<u32>)
    ensures
        r == hotkey_key_code(token@),
{
    let upper = upper_chars(token);
    if upper.len() == 1 {
        let c = upper[0];
        if ('0' <= c && c <= '9') || ('A' <= c && c <= 'Z') || ('a' <= c && c <= 'z') {
            return Some(c as u32);
        }
    }
    if upper.len() > 0 && upper[0] == 'F' {
        let rest = skip_chars(&upper, 1);
        assert(rest@ =~= upper@.drop_first());
        match parse_u32_chars(&rest) {
            Some(n) => {
                if 1 <= n && n <= 24 {
                    return Some(0x70 + n - 1);
                }
            },
            None => {},
        }
    }
    if upper.len() >= 6 {
        let head = take_chars_exec(&upper, 6);
        if chars_are(&head, "NUMPAD") {
            let rest = skip_chars(&upper, 6);
            match parse_u32_chars(&rest) {
                Some(n) => {
                    if n <= 9 {
                        return Some(0x60 + n);
                    }
                },
                None => {},
            }
        }
    }
    named_key_exec(&upper)
}

/// The code of a shortcut token: a modifier name or a key name.
pub open spec fn token_code(token: Seq<char>) -> Option<u32> {
    let lower = lower_seq(token);
    if lower == "ctrl"@ || lower == "control"@ {
        Some(0x11)
    } else if lower == "alt"@ {
        Some(0x12)
    } else if lower == "shift"@ {
        Some(0x10)
    } else if lower == "win"@ || lower == "windows"@ || lower == "meta"@ {
        Some(0x5b)
    } else {
        hotkey_key_code(token)
    }
}

fn token_code_exec(token: &Vec<char>) -> (r: Option<u32>)
    ensures
        r == token_code(token@),
{
    let lower = lower_chars(token);
    if chars_are(&lower, "ctrl") || chars_are(&lower, "control") {
        Some(0x11)
    } else if chars_are(&lower, "alt") {
        Some(0x12)
    } else if chars_are(&lower, "shift") {
        Some(0x10)
    } else if chars_are(&lower, "win") || chars_are(&lower, "windows") || chars_are(
        &lower,
        "meta",
    ) {
        Some(0x5b)
    } else {
        key_code_of_chars(token)
    }
}

/// The trimmed, non-empty pieces of a split.
pub open spec fn nonempty_trimmed(pieces: Seq<Seq<char>>) -> Seq<Seq<char>>
    decreases pieces.len(),
{
    if pieces.len() == 0 {
        seq![]
    } else {
        let rest = nonempty_trimmed(pieces.drop_last());
        let t = trim(pieces.last());
        if t.len() > 0 {
            rest.push(t)
        } else {
            rest
        }
    }
}

/// The tokens of a shortcut text: the `+`-separated parts, trimmed, empty ones dropped.
pub open spec fn hotkey_tokens(value: Seq<char>) -> Seq<Seq<char>> {
    nonempty_trimmed(split_on(value, '+'))
}

/// The codes of the tokens in order, or the message for the first token that
/// is unknown or repeats an earlier key.
pub open spec fn collect_keys(tokens: Seq<Seq<char>>) -> Result<Seq<u32>, Seq<char>>
    decreases tokens.len(),
{
    if tokens.len() == 0 {
        Ok(seq![])
    } else {
        match collect_keys(tokens.drop_last()) {
            Err(message) => Err(message),
            Ok(keys) => {
                let t = tokens.last();
                match token_code(t) {
                    None => Err("无法识别快捷键按键："@ + t),
                    Some(k) => {
                        let k = normalized_key(k);
                        if keys.contains(k) {
                            Err("快捷键包含重复按键："@ + t)
                        } else {
                            Ok(keys.push(k))
                        }
                    },
                }
            },
        }
    }
}

/// The keys of a shortcut in the order written, or the reason it is refused.
pub open spec fn hotkey_keys(value: Seq<char>) -> Result<Seq<u32>, Seq<char>> {
    match collect_keys(hotkey_tokens(value)) {
        Err(message) => Err(message),
        Ok(keys) => {
            if keys.len() == 0 {
                Err("快捷键不能为空"@)
            } else if keys.len() > 8 {
                Err("快捷键最多包含 8 个按键"@)
            } else if forall|i: int| 0 <= i < keys.len() ==> #[trigger] is_modifier_key(keys[i]) {
                Err("快捷键至少需要一个非修饰按键"@)
            } else {
                Ok(keys)
            }
        },
    }
}

pub open spec fn strictly_increasing(s: Seq<u32>) -> bool {
    forall|i: int, j: int| 0 <= i < j < s.len() ==> s[i] < s[j]
}

/// `sorted` holds the keys of `keys` (all distinct) in increasing order.
pub open spec fn sorted_keys_of(sorted: Seq<u32>, keys: Seq<u32>) -> bool {
    &&& strictly_increasing(sorted)
    &&& sorted.len() == keys.len()
    &&& forall|k: u32| sorted.contains(k) <==> keys.contains(k)
}

/// A shortcut: the distinct virtual-key codes that must be held together,
/// in increasing order.
#[derive(Clone, Debug, PartialEq, Eq)]
pub struct HotkeyChord {
    pub keys: Vec<u32>,
}

proof fn lemma_collect_err_persists(tokens: Seq<Seq<char>>, i: int, message: Seq<char>)
    requires
        0 <= i <= tokens.len(),
        collect_keys(tokens.take(i)) == Err::<Seq<u32>, Seq<char>>(message),
    ensures
        collect_keys(tokens) == Err::<Seq<u32>, Seq<char>>(message),
    decreases tokens.len() - i,
{
    if i == tokens.len() {
        assert(tokens.take(i) =~= tokens);
    } else {
        assert(tokens.take(i + 1).drop_last() =~= tokens.take(i));
        lemma_collect_err_persists(tokens, i + 1, message);
    }
}

fn message_with(prefix: &str, token: &Vec<char>) -> (m: String)
    ensures
        m@ == prefix@ + token@,
{
    let p = chars_of(prefix);
    let all = concat_chars(&p, token);
    string_from_chars(&all)
}

fn contains_key(keys: &Vec<u32>, k: u32) -> (r: bool)
    ensures
        r == keys@.contains(k),
{
    for i in 0..keys.len()
        invariant
            forall|j: int| 0 <= j < i ==> keys@[j] != k,
    {
        if keys[i] == k {
            return true;
        }
    }
    false
}

fn sort_distinct_keys(keys: &Vec<u32>) -> (sorted: Vec<u32>)
    requires
        keys@.no_duplicates(),
    ensures
        sorted_keys_of(sorted@, keys@),
{
    let mut sorted: Vec<u32> = Vec::new();
    for i in 0..keys.len()
        invariant
            keys@.no_duplicates(),
            sorted_keys_of(sorted@, keys@.take(i as int)),
    {
        let k = keys[i];
        assert(!keys@.take(i as int).contains(k)) by {
            if keys@.take(i as int).contains(k) {
                let j = choose|j: int| 0 <= j < i && keys@.take(i as int)[j] == k;
                assert(keys@[j] == keys@[i as int]);
            }
        }
        let mut pos: usize = 0;
        while pos < sorted.len() && sorted[pos] < k
            invariant
                pos <= sorted.len(),
                forall|j: int| 0 <= j < pos ==> sorted@[j] < k,
            decreases sorted.len() - pos,
        {
            pos = pos + 1;
        }
        let ghost before = sorted@;
        assert(!before.contains(k));
        sorted.insert(pos, k);
        assert(keys@.take(i + 1) =~= keys@.take(i as int).push(k));
        let ghost prefix = keys@.take(i as int);
        let ghost next = keys@.take(i + 1);
        assert forall|x: u32| sorted@.contains(x) implies next.contains(x) by {
            let j = choose|j: int| 0 <= j < sorted@.len() && sorted@[j] == x;
            if j == pos {
                assert(next[i as int] == x);
            } else {
                if j < pos {
                    assert(before[j] == x);
                } else {
                    assert(before[j - 1] == x);
                }
                assert(before.contains(x));
                assert(prefix.contains(x));
                let m = choose|m: int| 0 <= m < prefix.len() && prefix[m] == x;
                assert(next[m] == x);
            }
        }
        assert forall|x: u32| next.contains(x) implies sorted@.contains(x) by {
            let m = choose|m: int| 0 <= m < next.len() && next[m] == x;
            if m == i {
                assert(sorted@[pos as int] == x);
            } else {
                assert(prefix[m] == x);
                assert(prefix.contains(x));
                assert(before.contains(x));
                let j = choose|j: int| 0 <= j < before.len() && before[j] == x;
                if j < pos {
                    assert(sorted@[j] == x);
                } else {
                    assert(sorted@[j + 1] == x);
                }
            }
        }
        assert forall|a: int, b: int| 0 <= a < b < sorted@.len() implies sorted@[a] < sorted@[b] by {
            if pos < before.len() {
                assert(before[pos as int] >= k);
                if before[pos as int] == k {
                    assert(before.contains(k));
                }
            }
        }
    }
    assert(keys@.take(keys.len() as int) =~= keys@);
    sorted
}

/// Parses a shortcut such as `Ctrl+Alt+G`, `Z+X` or `Shift+F12`.
pub fn parse_hotkey(value: &str) -> (r: Result<HotkeyChord, String>)
    ensures
        match hotkey_keys(value@) {
            Ok(keys) => r matches Ok(chord) && sorted_keys_of(chord.keys@, keys),
            Err(message) => r matches Err(m) && m@ == message,
        },
{
    let chars = chars_of(value);
    let pieces = split_chars(&chars, '+');
    let ghost piece_views = pieces@.map_values(|p: Vec<char>| p@);
    let mut tokens: Vec<Vec<char>> = Vec::new();
    for i in 0..pieces.len()
        invariant
            piece_views == pieces@.map_values(|p: Vec<char>| p@),
            tokens@.map_values(|t: Vec<char>| t@) == nonempty_trimmed(piece_views.take(i as int)),
    {
        let t = trim_chars(&pieces[i]);
        assert(piece_views.take(i + 1).drop_last() =~= piece_views.take(i as int));
        assert(piece_views.take(i + 1).last() == pieces@[i as int]@);
        let ghost old_tokens = tokens@;
        if t.len() > 0 {
            tokens.push(t);
            assert(tokens@.map_values(|t: Vec<char>| t@) =~= old_tokens.map_values(
                |t: Vec<char>| t@,
            ).push(t@));
        }
    }
    assert(piece_views.take(pieces.len() as int) =~= piece_views);
    let ghost token_views = tokens@.map_values(|t: Vec<char>| t@);
    assert(token_views == hotkey_tokens(value@));
    let mut keys: Vec<u32> = Vec::new();
    for i in 0..tokens.len()
        invariant
            token_views == tokens@.map_values(|t: Vec<char>| t@),
            token_views == hotkey_tokens(value@),
            collect_keys(token_views.take(i as int)) == Ok::<Seq<u32>, Seq<char>>(keys@),
            keys@.no_duplicates(),
    {
        assert(token_views.take(i + 1).drop_last() =~= token_views.take(i as int));
        assert(token_views.take(i + 1).last() == tokens@[i as int]@);
        let code = token_code_exec(&tokens[i]);
        match code {
            None => {
                let m = message_with("无法识别快捷键按键：", &tokens[i]);
                proof {
                    lemma_collect_err_persists(token_views, i + 1, m@);
                }
                return Err(m);
            },
            Some(k) => {
                let k = normalized_hotkey_virtual_key(k);
                if contains_key(&keys, k) {
                    let m = message_with("快捷键包含重复按键：", &tokens[i]);
                    proof {
                        lemma_collect_err_persists(token_views, i + 1, m@);
                    }
                    return Err(m);
                }
                keys.push(k);
            },
        }
    }
    assert(token_views.take(tokens.len() as int) =~= token_views);
    if keys.len() == 0 {
        return Err(String::from_str("快捷键不能为空"));
    }
    if keys.len() > 8 {
        return Err(String::from_str("快捷键最多包含 8 个按键"));
    }
    let mut all_modifiers = true;
    for i in 0..keys.len()
        invariant
            all_modifiers == forall|j: int| 0 <= j < i ==> #[trigger] is_modifier_key(keys@[j]),
    {
        if !is_hotkey_modifier(keys[i]) {
            all_modifiers = false;
        }
    }
    if all_modifiers {
        return Err(String::from_str("快捷键至少需要一个非修饰按键"));
    }
    let sorted = sort_distinct_keys(&keys);
    Ok(HotkeyChord { keys: sorted })
}

} // verus!

verus! {

/// A low-level keyboard event, as captured by the hook and as replayed.
#[derive(Clone, Copy, Debug, PartialEq, Eq)]
pub struct ReplayKeyboardEvent {
    pub virtual_key: u32,
    pub scan_code: u32,
    pub key_down: bool,
    pub extended: bool,
}

impl ReplayKeyboardEvent {
    /// A plain key event without scan code or extended flag.
    pub fn key(virtual_key: u32, key_down: bool) -> (e: Self)
        ensures
            e == (ReplayKeyboardEvent { virtual_key, scan_code: 0, key_down, extended: false }),
    {
        ReplayKeyboardEvent { virtual_key, scan_code: 0, key_down, extended: false }
    }

    /// The same key, released.
    pub fn released(self) -> (e: Self)
        ensures
            e == released_event(self),
    {
        ReplayKeyboardEvent { key_down: false, ..self }
    }
}

pub open spec fn released_event(e: ReplayKeyboardEvent) -> ReplayKeyboardEvent {
    ReplayKeyboardEvent { key_down: false, ..e }
}

/// What the keyboard hook does with one event: whether the chord completed,
/// whether the event is swallowed, and which events to send again.
#[derive(Clone, Debug, PartialEq, Eq)]
pub struct HotkeyHookResult {
    pub trigger: bool,
    pub suppress: bool,
    pub replay: Vec<ReplayKeyboardEvent>,
}

impl HotkeyHookResult {
    /// Nothing happens: the event passes through.
    pub fn pass() -> (r: Self)
        ensures
            r@ == pass_outcome(),
    {
        HotkeyHookResult { trigger: false, suppress: false, replay: Vec::new() }
    }
}

impl Default for HotkeyHookResult {
    fn default() -> (r: Self)
        ensures
            r@ == pass_outcome(),
    {
        HotkeyHookResult::pass()
    }
}

/// The mathematical content of a hook result.
pub struct HookOutcome {
    pub trigger: bool,
    pub suppress: bool,
    pub replay: Seq<ReplayKeyboardEvent>,
}

impl View for HotkeyHookResult {
    type V = HookOutcome;

    open spec fn view(&self) -> HookOutcome {
        HookOutcome { trigger: self.trigger, suppress: self.suppress, replay: self.replay@ }
    }
}

pub open spec fn pass_outcome() -> HookOutcome {
    HookOutcome { trigger: false, suppress: false, replay: seq![] }
}

/// The state of the chord recogniser.
pub struct TrackerModel {
    pub chord: Option<Seq<u32>>,
    pub pressed: Set<u32>,
    pub suppressed: Set<u32>,
    pub buffered: Seq<ReplayKeyboardEvent>,
    pub latched: bool,
    pub cancelled: bool,
}

pub open spec fn set_of(v: Seq<u32>) -> Set<u32> {
    Set::new(|k: u32| v.contains(k))
}

/// Each buffered key press followed by its release, in input order.
pub open spec fn replay_pairs(buffered: Seq<ReplayKeyboardEvent>) -> Seq<ReplayKeyboardEvent>
    decreases buffered.len(),
{
    if buffered.len() == 0 {
        seq![]
    } else {
        replay_pairs(buffered.drop_last()) + seq![
            buffered.last(),
            released_event(buffered.last()),
        ]
    }
}

/// The number of non-modifier keys of a chord.
pub open spec fn ordinary_count(keys: Seq<u32>) -> nat
    decreases keys.len(),
{
    if keys.len() == 0 {
        0
    } else {
        ordinary_count(keys.drop_last()) + if is_modifier_key(keys.last()) {
            0nat
        } else {
            1nat
        }
    }
}

pub open spec fn all_pressed(keys: Seq<u32>, pressed: Set<u32>) -> bool {
    forall|i: int| 0 <= i < keys.len() ==> pressed.contains(#[trigger] keys[i])
}

pub open spec fn modifiers_pressed(keys: Seq<u32>, pressed: Set<u32>) -> bool {
    forall|i: int|
        0 <= i < keys.len() && is_modifier_key(#[trigger] keys[i]) ==> pressed.contains(keys[i])
}

/// Gives up on a partly typed chord: the buffered keys are sent again, then
/// the current event if any.
pub open spec fn cancel_buffered(m: TrackerModel, trailing: Option<ReplayKeyboardEvent>) -> (
    TrackerModel,
    HookOutcome,
) {
    let replay = replay_pairs(m.buffered) + match trailing {
        Some(e) => seq![e],
        None => seq![],
    };
    (
        TrackerModel { buffered: seq![], cancelled: true, ..m },
        HookOutcome { trigger: false, suppress: true, replay },
    )
}

/// Starts a new gesture (pressed keys are kept).
pub open spec fn reset_gesture(m: TrackerModel) -> TrackerModel {
    TrackerModel { suppressed: Set::empty(), buffered: seq![], latched: false, cancelled: false, ..m }
}

pub open spec fn reset_when_released(m: TrackerModel) -> TrackerModel {
    if m.pressed.is_empty() {
        reset_gesture(m)
    } else {
        m
    }
}

/// One step of the recogniser: the next state and what the hook does.
pub open spec fn tracker_step(m: TrackerModel, e: ReplayKeyboardEvent) -> (TrackerModel, HookOutcome) {
    let k = normalized_key(e.virtual_key);
    match m.chord {
        None => (m, pass_outcome()),
        Some(keys) => if !keys.contains(k) {
            if m.buffered.len() > 0 {
                cancel_buffered(m, Some(e))
            } else {
                (m, pass_outcome())
            }
        } else if e.key_down {
            let first_press = !m.pressed.contains(k);
            let m1 = TrackerModel { pressed: m.pressed.insert(k), ..m };
            if m1.latched {
                let suppress = !is_modifier_key(k);
                (
                    TrackerModel {
                        suppressed: if suppress {
                            m1.suppressed.insert(k)
                        } else {
                            m1.suppressed
                        },
                        ..m1
                    },
                    HookOutcome { trigger: false, suppress, replay: seq![] },
                )
            } else if m1.cancelled {
                (m1, pass_outcome())
            } else if !first_press {
                if !is_modifier_key(k) && m1.buffered.len() > 0 {
                    let (m2, outcome) = cancel_buffered(m1, Some(e));
                    (TrackerModel { suppressed: m2.suppressed.remove(k), ..m2 }, outcome)
                } else {
                    (m1, pass_outcome())
                }
            } else if is_modifier_key(k) {
                (m1, pass_outcome())
            } else if !modifiers_pressed(keys, m1.pressed) {
                (TrackerModel { cancelled: true, ..m1 }, pass_outcome())
            } else {
                let m2 = TrackerModel {
                    suppressed: m1.suppressed.insert(k),
                    buffered: if ordinary_count(keys) > 1 {
                        m1.buffered.push(e)
                    } else {
                        m1.buffered
                    },
                    ..m1
                };
                if all_pressed(keys, m2.pressed) {
                    (
                        TrackerModel { latched: true, buffered: seq![], ..m2 },
                        HookOutcome { trigger: true, suppress: true, replay: seq![] },
                    )
                } else {
                    (m2, HookOutcome { trigger: false, suppress: true, replay: seq![] })
                }
            }
        } else {
            let m1 = TrackerModel { pressed: m.pressed.remove(k), ..m };
            if m1.latched {
                let suppress = m1.suppressed.contains(k);
                (
                    reset_when_released(TrackerModel { suppressed: m1.suppressed.remove(k), ..m1 }),
                    HookOutcome { trigger: false, suppress, replay: seq![] },
                )
            } else if m1.buffered.len() > 0 {
                let was_suppressed = m1.suppressed.contains(k);
                let m2 = TrackerModel { suppressed: m1.suppressed.remove(k), ..m1 };
                let (m3, outcome) = cancel_buffered(
                    m2,
                    if was_suppressed {
                        None
                    } else {
                        Some(e)
                    },
                );
                (reset_when_released(m3), outcome)
            } else if m1.cancelled {
                let suppress = m1.suppressed.contains(k);
                (
                    reset_when_released(TrackerModel { suppressed: m1.suppressed.remove(k), ..m1 }),
                    HookOutcome { trigger: false, suppress, replay: seq![] },
                )
            } else {
                (m1, pass_outcome())
            }
        },
    }
}

/// Recognises a hotkey chord in the stream of keyboard events.
pub struct HotkeyChordTracker {
    chord: Option<HotkeyChord>,
    pressed: Vec<u32>,
    suppressed: Vec<u32>,
    buffered: Vec<ReplayKeyboardEvent>,
    latched: bool,
    cancelled: bool,
}

impl View for HotkeyChordTracker {
    type V = TrackerModel;

    closed spec fn view(&self) -> TrackerModel {
        TrackerModel {
            chord: match self.chord {
                Some(c) => Some(c.keys@),
                None => None,
            },
            pressed: set_of(self.pressed@),
            suppressed: set_of(self.suppressed@),
            buffered: self.buffered@,
            latched: self.latched,
            cancelled: self.cancelled,
        }
    }
}

fn set_insert(v: &mut Vec<u32>, k: u32) -> (added: bool)
    requires
        old(v)@.no_duplicates(),
    ensures
        final(v)@.no_duplicates(),
        set_of(final(v)@) == set_of(old(v)@).insert(k),
        added == !set_of(old(v)@).contains(k),
{
    if contains_key(v, k) {
        assert(set_of(v@) =~= set_of(v@).insert(k));
        false
    } else {
        let ghost before = v@;
        v.push(k);
        assert forall|x: u32| v@.contains(x) <==> before.contains(x) || x == k by {
            if v@.contains(x) && x != k {
                let j = choose|j: int| 0 <= j < v@.len() && v@[j] == x;
                assert(before[j] == x);
            }
            if before.contains(x) {
                let j = choose|j: int| 0 <= j < before.len() && before[j] == x;
                assert(v@[j] == x);
            }
            if x == k {
                assert(v@[before.len() as int] == k);
            }
        }
        assert(set_of(v@) =~= set_of(before).insert(k));
        true
    }
}

fn set_remove(v: &mut Vec<u32>, k: u32) -> (removed: bool)
    requires
        old(v)@.no_duplicates(),
    ensures
        final(v)@.no_duplicates(),
        set_of(final(v)@) == set_of(old(v)@).remove(k),
        removed == set_of(old(v)@).contains(k),
{
    let mut i: usize = 0;
    while i < v.len()
        invariant
            i <= v.len(),
            v@ == old(v)@,
            v@.no_duplicates(),
            forall|j: int| 0 <= j < i ==> v@[j] != k,
        decreases v.len() - i,
    {
        if v[i] == k {
            let ghost before = v@;
            v.remove(i);
            assert(forall|j: int| 0 <= j < v@.len() ==> v@[j] == (if j < i { before[j] } else { before[j + 1] }));
            assert forall|x: u32| v@.contains(x) implies before.contains(x) && x != k by {
                let j = choose|j: int| 0 <= j < v@.len() && v@[j] == x;
                if j < i {
                    assert(before[j] == x);
                } else {
                    assert(before[j + 1] == x);
                }
            }
            assert forall|x: u32| before.contains(x) && x != k implies v@.contains(x) by {
                let j = choose|j: int| 0 <= j < before.len() && before[j] == x;
                if j < i {
                    assert(v@[j] == x);
                } else {
                    assert(v@[j - 1] == x);
                }
            }
            assert(set_of(v@) =~= set_of(before).remove(k));
            assert(set_of(before).contains(k)) by {
                assert(before[i as int] == k);
            }
            return true;
        }
        i = i + 1;
    }
    assert(!v@.contains(k));
    assert(set_of(v@) =~= set_of(v@).remove(k));
    false
}

proof fn lemma_set_of_empty(v: Seq<u32>)
    ensures
        (v.len() == 0) == set_of(v).is_empty(),
{
    if v.len() > 0 {
        assert(set_of(v).contains(v[0]));
    } else {
        assert(set_of(v) =~= Set::<u32>::empty());
    }
}

impl HotkeyChordTracker {
    /// A recogniser with no chord: every event passes through.
    pub fn new() -> (t: Self)
        ensures
            t.wf(),
            t@ == (TrackerModel {
                chord: None,
                pressed: Set::empty(),
                suppressed: Set::empty(),
                buffered: seq![],
                latched: false,
                cancelled: false,
            }),
    {
        let t = HotkeyChordTracker {
            chord: None,
            pressed: Vec::new(),
            suppressed: Vec::new(),
            buffered: Vec::new(),
            latched: false,
            cancelled: false,
        };
        assert(set_of(t.pressed@) =~= Set::<u32>::empty());
        t
    }

    /// The key lists hold each key once, and no modifier key is suppressed.
    pub closed spec fn wf(&self) -> bool {
        &&& self.pressed@.no_duplicates()
        &&& self.suppressed@.no_duplicates()
        &&& modifiers_unsuppressed(self@)
    }

    /// Replaces the chord and forgets every key state.
    pub fn set_chord(&mut self, chord: Option<HotkeyChord>)
        ensures
            final(self).wf(),
            final(self)@ == (TrackerModel {
                chord: match chord {
                    Some(c) => Some(c.keys@),
                    None => None,
                },
                pressed: Set::empty(),
                suppressed: Set::empty(),
                buffered: seq![],
                latched: false,
                cancelled: false,
            }),
    {
        self.chord = chord;
        self.reset_pressed();
    }

    /// Forgets every key state (the chord is kept).
    pub fn reset_pressed(&mut self)
        ensures
            final(self).wf(),
            final(self)@ == (TrackerModel {
                pressed: Set::empty(),
                suppressed: Set::empty(),
                buffered: seq![],
                latched: false,
                cancelled: false,
                ..old(self)@
            }),
    {
        self.pressed.clear();
        self.suppressed.clear();
        self.buffered.clear();
        self.latched = false;
        self.cancelled = false;
        assert(set_of(self.pressed@) =~= Set::<u32>::empty());
        assert(set_of(self.suppressed@) =~= Set::<u32>::empty());
    }

    /// Handles a key given by its code alone.
    pub fn handle_key(&mut self, virtual_key: u32, key_down: bool) -> (r: HotkeyHookResult)
        requires
            old(self).wf(),
        ensures
            final(self).wf(),
            (final(self)@, r@) == tracker_step(
                old(self)@,
                ReplayKeyboardEvent { virtual_key, scan_code: 0, key_down, extended: false },
            ),
    {
        self.handle_event(ReplayKeyboardEvent::key(virtual_key, key_down))
    }

    fn cancel_buffered(&mut self, trailing: Option<ReplayKeyboardEvent>) -> (r: HotkeyHookResult)
        requires
            old(self).wf(),
        ensures
            final(self).wf(),
            (final(self)@, r@) == cancel_buffered(old(self)@, trailing),
    {
        let mut replay: Vec<ReplayKeyboardEvent> = Vec::new();
        let ghost b = self.buffered@;
        for i in 0..self.buffered.len()
            invariant
                b == self.buffered@,
                replay@ == replay_pairs(b.take(i as int)),
        {
            let e = self.buffered[i];
            assert(b.take(i + 1).drop_last() =~= b.take(i as int));
            replay.push(e);
            replay.push(e.released());
            assert(replay@ =~= replay_pairs(b.take(i + 1)));
        }
        assert(b.take(b.len() as int) =~= b);
        match trailing {
            Some(e) => replay.push(e),
            None => {},
        }
        self.buffered.clear();
        self.cancelled = true;
        let r = HotkeyHookResult { trigger: false, suppress: true, replay };
        assert(r@.replay =~= cancel_buffered(old(self)@, trailing).1.replay);
        r
    }

    fn reset_gesture(&mut self)
        requires
            old(self).wf(),
        ensures
            final(self).wf(),
            final(self)@ == reset_gesture(old(self)@),
    {
        self.suppressed.clear();
        self.buffered.clear();
        self.latched = false;
        self.cancelled = false;
        assert(set_of(self.suppressed@) =~= Set::<u32>::empty());
    }

    fn reset_when_released(&mut self)
        requires
            old(self).wf(),
        ensures
            final(self).wf(),
            final(self)@ == reset_when_released(old(self)@),
    {
        proof {
            lemma_set_of_empty(self.pressed@);
        }
        if self.pressed.len() == 0 {
            self.reset_gesture();
        }
    }

    /// Feeds one keyboard event to the recogniser.
    pub fn handle_event(&mut self, event: ReplayKeyboardEvent) -> (r: HotkeyHookResult)
        requires
            old(self).wf(),
        ensures
            final(self).wf(),
            (final(self)@, r@) == tracker_step(old(self)@, event),
    {
        proof {
            lemma_step_keeps_modifiers_unsuppressed(self@, event);
        }
        let k = normalized_hotkey_virtual_key(event.virtual_key);
        let keys: Vec<u32> = match &self.chord {
            None => {
                return HotkeyHookResult::pass();
            },
            Some(chord) => copy_keys(&chord.keys),
        };
        let ghost m = self@;
        if !contains_key(&keys, k) {
            if self.buffered.len() > 0 {
                return self.cancel_buffered(Some(event));
            }
            return HotkeyHookResult::pass();
        }
        if event.key_down {
            let first_press = set_insert(&mut self.pressed, k);
            if self.latched {
                let suppress = !is_hotkey_modifier(k);
                if suppress {
                    set_insert(&mut self.suppressed, k);
                }
                return HotkeyHookResult { trigger: false, suppress, replay: Vec::new() };
            }
            if self.cancelled {
                return HotkeyHookResult::pass();
            }
            if !first_press {
                if !is_hotkey_modifier(k) && self.buffered.len() > 0 {
                    let result = self.cancel_buffered(Some(event));
                    set_remove(&mut self.suppressed, k);
                    return result;
                }
                return HotkeyHookResult::pass();
            }
            if is_hotkey_modifier(k) {
                return HotkeyHookResult::pass();
            }
            let mut modifiers_ready = true;
            let mut ordinary: usize = 0;
            let mut every_pressed = true;
            for i in 0..keys.len()
                invariant
                    self.pressed@.no_duplicates(),
                    modifiers_ready == modifiers_pressed(keys@.take(i as int), set_of(self.pressed@)),
                    ordinary as nat == ordinary_count(keys@.take(i as int)),
                    ordinary <= i,
                    every_pressed == all_pressed(keys@.take(i as int), set_of(self.pressed@)),
            {
                let key = keys[i];
                assert(keys@.take(i + 1).drop_last() =~= keys@.take(i as int));
                let present = contains_key(&self.pressed, key);
                assert(present == set_of(self.pressed@).contains(key));
                if is_hotkey_modifier(key) && !present {
                    modifiers_ready = false;
                }
                if !is_hotkey_modifier(key) {
                    ordinary = ordinary + 1;
                }
                if !present {
                    every_pressed = false;
                }
                assert(keys@.take(i + 1)[i as int] == key);
            }
            assert(keys@.take(keys.len() as int) =~= keys@);
            if !modifiers_ready {
                self.cancelled = true;
                return HotkeyHookResult::pass();
            }
            set_insert(&mut self.suppressed, k);
            if ordinary > 1 {
                self.buffered.push(event);
            }
            // `k` was already added to the pressed keys above.
            let trigger = every_pressed;
            if trigger {
                self.latched = true;
                self.buffered.clear();
            }
            HotkeyHookResult { trigger, suppress: true, replay: Vec::new() }
        } else {
            set_remove(&mut self.pressed, k);
            if self.latched {
                let suppress = set_remove(&mut self.suppressed, k);
                self.reset_when_released();
                return HotkeyHookResult { trigger: false, suppress, replay: Vec::new() };
            }
            if self.buffered.len() > 0 {
                let was_suppressed = set_remove(&mut self.suppressed, k);
                let trailing = if was_suppressed {
                    None
                } else {
                    Some(event)
                };
                let result = self.cancel_buffered(trailing);
                self.reset_when_released();
                return result;
            }
            if self.cancelled {
                let suppress = set_remove(&mut self.suppressed, k);
                self.reset_when_released();
                return HotkeyHookResult { trigger: false, suppress, replay: Vec::new() };
            }
            HotkeyHookResult::pass()
        }
    }
}

fn copy_keys(keys: &Vec<u32>) -> (r: Vec<u32>)
    ensures
        r@ == keys@,
{
    let mut r: Vec<u32> = Vec::new();
    for i in 0..keys.len()
        invariant
            r@ =~= keys@.take(i as int),
    {
        r.push(keys[i]);
    }
    assert(keys@.take(keys.len() as int) =~= keys@);
    r
}

} // verus!

verus! {

impl Default for HotkeyChordTracker {
    fn default() -> (t: Self)
        ensures
            t.wf(),
            t@ == (TrackerModel {
                chord: None,
                pressed: Set::empty(),
                suppressed: Set::empty(),
                buffered: seq![],
                latched: false,
                cancelled: false,
            }),
    {
        HotkeyChordTracker::new()
    }
}

/// Once the chord has fired, no event fires it again while the gesture lasts.
pub proof fn law_latched_never_triggers(m: TrackerModel, e: ReplayKeyboardEvent)
    requires
        m.latched,
    ensures
        !tracker_step(m, e).1.trigger,
{
}

/// A fired chord stays latched until every key of it has been released.
pub proof fn law_latch_held_until_release(m: TrackerModel, e: ReplayKeyboardEvent)
    requires
        m.latched,
    ensures
        tracker_step(m, e).0.latched || tracker_step(m, e).0.pressed.is_empty(),
{
}

/// The chord fires only when every one of its keys is held, and then it
/// latches with nothing left to replay.
pub proof fn law_trigger_means_whole_chord(m: TrackerModel, e: ReplayKeyboardEvent)
    requires
        tracker_step(m, e).1.trigger,
    ensures
        m.chord is Some,
        all_pressed(m.chord->0, tracker_step(m, e).0.pressed),
        tracker_step(m, e).0.latched,
        tracker_step(m, e).0.buffered.len() == 0,
        tracker_step(m, e).1.suppress,
{
}

/// Pressing a modifier of the chord is never swallowed.
pub proof fn law_modifier_press_passes(m: TrackerModel, e: ReplayKeyboardEvent)
    requires
        m.chord matches Some(keys) && keys.contains(normalized_key(e.virtual_key)),
        e.key_down,
        is_modifier_key(e.virtual_key),
    ensures
        !tracker_step(m, e).1.suppress,
{
}

/// With nothing buffered, a key outside the chord passes through and changes nothing.
pub proof fn law_unrelated_key_passes(m: TrackerModel, e: ReplayKeyboardEvent)
    requires
        m.buffered.len() == 0,
        m.chord matches Some(keys) ==> !keys.contains(normalized_key(e.virtual_key)),
    ensures
        tracker_step(m, e) == (m, pass_outcome()),
{
}

/// The recogniser's state after a run of events.
pub open spec fn run_events(m: TrackerModel, events: Seq<ReplayKeyboardEvent>) -> TrackerModel
    decreases events.len(),
{
    if events.len() == 0 {
        m
    } else {
        tracker_step(run_events(m, events.drop_last()), events.last()).0
    }
}

/// Whether no modifier key is among the suppressed keys; true of every
/// state a recogniser reaches from `new`, `set_chord` or `reset_pressed`.
pub open spec fn modifiers_unsuppressed(m: TrackerModel) -> bool {
    forall|k: u32| m.suppressed.contains(k) ==> !is_modifier_key(k)
}

proof fn lemma_step_keeps_modifiers_unsuppressed(m: TrackerModel, e: ReplayKeyboardEvent)
    requires
        modifiers_unsuppressed(m),
    ensures
        modifiers_unsuppressed(tracker_step(m, e).0),
{
    let k = normalized_key(e.virtual_key);
    assert(is_modifier_key(k) == is_modifier_key(e.virtual_key));
    let m2 = tracker_step(m, e).0;
    assert forall|x: u32| m2.suppressed.contains(x) implies !is_modifier_key(x) by {
        if m.suppressed.contains(x) {
        }
    }
}

proof fn lemma_run_keeps_modifiers_unsuppressed(m: TrackerModel, events: Seq<ReplayKeyboardEvent>)
    requires
        modifiers_unsuppressed(m),
    ensures
        modifiers_unsuppressed(run_events(m, events)),
    decreases events.len(),
{
    if events.len() > 0 {
        lemma_run_keeps_modifiers_unsuppressed(m, events.drop_last());
        lemma_step_keeps_modifiers_unsuppressed(run_events(m, events.drop_last()), events.last());
    }
}

/// A modifier event is never swallowed: whatever events came since the
/// recogniser was created or reset (its suppressed keys empty), an event of
/// Shift, Ctrl, Alt or a Windows key either passes through or is the last
/// event sent again.
pub proof fn law_modifier_events_never_swallowed(
    m: TrackerModel,
    events: Seq<ReplayKeyboardEvent>,
    e: ReplayKeyboardEvent,
)
    requires
        m.suppressed.is_empty(),
        is_modifier_key(e.virtual_key),
    ensures
        ({
            let outcome = tracker_step(run_events(m, events), e).1;
            !outcome.suppress || (outcome.replay.len() > 0 && outcome.replay.last() == e)
        }),
{
    lemma_run_keeps_modifiers_unsuppressed(m, events);
    lemma_modifier_step(run_events(m, events), e);
}

proof fn lemma_modifier_step(r: TrackerModel, e: ReplayKeyboardEvent)
    requires
        modifiers_unsuppressed(r),
        is_modifier_key(e.virtual_key),
    ensures
        ({
            let outcome = tracker_step(r, e).1;
            !outcome.suppress || (outcome.replay.len() > 0 && outcome.replay.last() == e)
        }),
{
    let k = normalized_key(e.virtual_key);
    assert(is_modifier_key(k));
    assert(!r.suppressed.contains(k));
    let outcome = tracker_step(r, e).1;
    if outcome.suppress {
        let trailing = seq![e];
        assert((replay_pairs(r.buffered) + trailing).last() == e);
    }
}

/// In every state a recogniser can be in, an event of Shift, Ctrl, Alt or a
/// Windows key either passes through or is the last event sent again.
pub proof fn law_tracker_never_swallows_modifiers(t: &HotkeyChordTracker, e: ReplayKeyboardEvent)
    requires
        t.wf(),
        is_modifier_key(e.virtual_key),
    ensures
        ({
            let outcome = tracker_step(t@, e).1;
            !outcome.suppress || (outcome.replay.len() > 0 && outcome.replay.last() == e)
        }),
{
    lemma_modifier_step(t@, e);
}

/// The chord fires once per press: after it fired, as long as some chord
/// key stays held after every later event, none of those events fires it
/// again, and the recogniser is still latched; it re-arms only once every
/// chord key is released.
pub proof fn law_fires_once_per_press(
    m0: TrackerModel,
    e0: ReplayKeyboardEvent,
    events: Seq<ReplayKeyboardEvent>,
    e: ReplayKeyboardEvent,
)
    requires
        tracker_step(m0, e0).1.trigger,
        forall|i: int|
            1 <= i <= events.len() ==> !(#[trigger] run_events(tracker_step(m0, e0).0, events.take(i))).pressed.is_empty(),
    ensures
        run_events(tracker_step(m0, e0).0, events).latched,
        !tracker_step(run_events(tracker_step(m0, e0).0, events), e).1.trigger,
{
    let m = tracker_step(m0, e0).0;
    lemma_stays_latched(m, events);
}

proof fn lemma_stays_latched(m: TrackerModel, events: Seq<ReplayKeyboardEvent>)
    requires
        m.latched,
        forall|i: int| 1 <= i <= events.len() ==> !(#[trigger] run_events(m, events.take(i))).pressed.is_empty(),
    ensures
        run_events(m, events).latched,
    decreases events.len(),
{
    if events.len() > 0 {
        let shorter = events.drop_last();
        assert forall|i: int| 1 <= i <= shorter.len() implies !(#[trigger] run_events(m, shorter.take(i))).pressed.is_empty() by {
            assert(shorter.take(i) =~= events.take(i));
        }
        lemma_stays_latched(m, shorter);
        assert(events.take(events.len() as int) =~= events);
        assert(!run_events(m, events.take(events.len() as int)).pressed.is_empty());
        law_latch_held_until_release(run_events(m, shorter), events.last());
    }
}

/// The Windows virtual-key codes of the keys that shortcuts name: Backspace
/// `VK_BACK`, Tab `VK_TAB`, Enter `VK_RETURN`, Esc and Escape `VK_ESCAPE`,
/// Space `VK_SPACE`, the navigation and editing keys, the lock keys, the
/// numeric-pad operators and the punctuation keys (`VK_OEM_*`).
pub open spec fn key_names() -> Seq<(Seq<char>, u32)> {
    seq![
        ("BACKSPACE"@, 0x08u32),
        ("TAB"@, 0x09u32),
        ("ENTER"@, 0x0du32),
        ("ESC"@, 0x1bu32),
        ("ESCAPE"@, 0x1bu32),
        ("SPACE"@, 0x20u32),
        ("PAGEUP"@, 0x21u32),
        ("PAGEDOWN"@, 0x22u32),
        ("END"@, 0x23u32),
        ("HOME"@, 0x24u32),
        ("LEFT"@, 0x25u32),
        ("UP"@, 0x26u32),
        ("RIGHT"@, 0x27u32),
        ("DOWN"@, 0x28u32),
        ("INSERT"@, 0x2du32),
        ("DELETE"@, 0x2eu32),
        ("PRINTSCREEN"@, 0x2cu32),
        ("PAUSE"@, 0x13u32),
        ("CAPSLOCK"@, 0x14u32),
        ("SCROLLLOCK"@, 0x91u32),
        ("NUMPADMULTIPLY"@, 0x6au32),
        ("NUMPADADD"@, 0x6bu32),
        ("NUMPADSUBTRACT"@, 0x6du32),
        ("NUMPADDECIMAL"@, 0x6eu32),
        ("NUMPADDIVIDE"@, 0x6fu32),
        ("SEMICOLON"@, 0xbau32),
        ("PLUS"@, 0xbbu32),
        ("COMMA"@, 0xbcu32),
        ("MINUS"@, 0xbdu32),
        ("PERIOD"@, 0xbeu32),
        ("SLASH"@, 0xbfu32),
        ("BACKTICK"@, 0xc0u32),
        ("BRACKETLEFT"@, 0xdbu32),
        ("BACKSLASH"@, 0xdcu32),
        ("BRACKETRIGHT"@, 0xddu32),
        ("QUOTE"@, 0xdeu32)
    ]
}

/// Every key name of the table, written in any letter case, stands for its
/// virtual-key code.
pub proof fn law_key_names_map_to_their_codes(token: Seq<char>, i: int)
    requires
        0 <= i < key_names().len(),
        upper_seq(token) == key_names()[i].0,
    ensures
        hotkey_key_code(token) == Some(key_names()[i].1),
{
    if i < 3 {
        lemma_key_names_from_0(token, i);
    } else if i < 6 {
        lemma_key_names_from_3(token, i);
    } else if i < 9 {
        lemma_key_names_from_6(token, i);
    } else if i < 12 {
        lemma_key_names_from_9(token, i);
    } else if i < 15 {
        lemma_key_names_from_12(token, i);
    } else if i < 18 {
        lemma_key_names_from_15(token, i);
    } else if i < 21 {
        lemma_key_names_from_18(token, i);
    } else if i < 24 {
        lemma_key_names_from_21(token, i);
    } else if i < 27 {
        lemma_key_names_from_24(token, i);
    } else if i < 30 {
        lemma_key_names_from_27(token, i);
    } else if i < 33 {
        lemma_key_names_from_30(token, i);
    } else if i < 36 {
        lemma_key_names_from_33(token, i);
    }
}

proof fn lemma_key_names_from_0(token: Seq<char>, i: int)
    requires
        0 <= i < 3,
        upper_seq(token) == key_names()[i].0,
    ensures
        hotkey_key_code(token) == Some(key_names()[i].1),
{
    reveal_strlit("BACKSPACE");
    reveal_strlit("TAB");
    reveal_strlit("ENTER");
    if i == 0 {
        reveal_strlit("BACKSPACE");
        assert(key_names()[0] == ("BACKSPACE"@, 0x08u32));
        lemma_named_key_entry(token, "BACKSPACE"@, 0x08u32);
    } else if i == 1 {
        reveal_strlit("TAB");
        assert(key_names()[1] == ("TAB"@, 0x09u32));
        lemma_named_key_entry(token, "TAB"@, 0x09u32);
    } else if i == 2 {
        reveal_strlit("ENTER");
        assert(key_names()[2] == ("ENTER"@, 0x0du32));
        lemma_named_key_entry(token, "ENTER"@, 0x0du32);
    }
}

proof fn lemma_key_names_from_3(token: Seq<char>, i: int)
    requires
        3 <= i < 6,
        upper_seq(token) == key_names()[i].0,
    ensures
        hotkey_key_code(token) == Some(key_names()[i].1),
{
    reveal_strlit("BACKSPACE");
    reveal_strlit("TAB");
    reveal_strlit("ENTER");
    reveal_strlit("ESC");
    reveal_strlit("ESCAPE");
    reveal_strlit("SPACE");
    if i == 3 {
        reveal_strlit("ESC");
        assert(key_names()[3] == ("ESC"@, 0x1bu32));
        assert("ESC"@[0] != "TAB"@[0]);
        lemma_named_key_entry(token, "ESC"@, 0x1bu32);
    } else if i == 4 {
        reveal_strlit("ESCAPE");
        assert(key_names()[4] == ("ESCAPE"@, 0x1bu32));
        lemma_named_key_entry(token, "ESCAPE"@, 0x1bu32);
    } else if i == 5 {
        reveal_strlit("SPACE");
        assert(key_names()[5] == ("SPACE"@, 0x20u32));
        assert("SPACE"@[0] != "ENTER"@[0]);
        lemma_named_key_entry(token, "SPACE"@, 0x20u32);
    }
}

proof fn lemma_key_names_from_6(token: Seq<char>, i: int)
    requires
        6 <= i < 9,
        upper_seq(token) == key_names()[i].0,
    ensures
        hotkey_key_code(token) == Some(key_names()[i].1),
{
    reveal_strlit("BACKSPACE");
    reveal_strlit("TAB");
    reveal_strlit("ENTER");
    reveal_strlit("ESC");
    reveal_strlit("ESCAPE");
    reveal_strlit("SPACE");
    reveal_strlit("PAGEUP");
    reveal_strlit("PAGEDOWN");
    reveal_strlit("END");
    if i == 6 {
        reveal_strlit("PAGEUP");
        assert(key_names()[6] == ("PAGEUP"@, 0x21u32));
        assert("PAGEUP"@[0] != "ESCAPE"@[0]);
        lemma_named_key_entry(token, "PAGEUP"@, 0x21u32);
    } else if i == 7 {
        reveal_strlit("PAGEDOWN");
        assert(key_names()[7] == ("PAGEDOWN"@, 0x22u32));
        lemma_named_key_entry(token, "PAGEDOWN"@, 0x22u32);
    } else if i == 8 {
        reveal_strlit("END");
        assert(key_names()[8] == ("END"@, 0x23u32));
        assert("END"@[0] != "TAB"@[0]);
        assert("END"@[1] != "ESC"@[1]);
        lemma_named_key_entry(token, "END"@, 0x23u32);
    }
}

proof fn lemma_key_names_from_9(token: Seq<char>, i: int)
    requires
        9 <= i < 12,
        upper_seq(token) == key_names()[i].0,
    ensures
        hotkey_key_code(token) == Some(key_names()[i].1),
{
    reveal_strlit("BACKSPACE");
    reveal_strlit("TAB");
    reveal_strlit("ENTER");
    reveal_strlit("ESC");
    reveal_strlit("ESCAPE");
    reveal_strlit("SPACE");
    reveal_strlit("PAGEUP");
    reveal_strlit("PAGEDOWN");
    reveal_strlit("END");
    reveal_strlit("HOME");
    reveal_strlit("LEFT");
    reveal_strlit("UP");
    if i == 9 {
        reveal_strlit("HOME");
        assert(key_names()[9] == ("HOME"@, 0x24u32));
        lemma_named_key_entry(token, "HOME"@, 0x24u32);
    } else if i == 10 {
        reveal_strlit("LEFT");
        assert(key_names()[10] == ("LEFT"@, 0x25u32));
        assert("LEFT"@[0] != "HOME"@[0]);
        lemma_named_key_entry(token, "LEFT"@, 0x25u32);
    } else if i == 11 {
        reveal_strlit("UP");
        assert(key_names()[11] == ("UP"@, 0x26u32));
        lemma_named_key_entry(token, "UP"@, 0x26u32);
    }
}

proof fn lemma_key_names_from_12(token: Seq<char>, i: int)
    requires
        12 <= i < 15,
        upper_seq(token) == key_names()[i].0,
    ensures
        hotkey_key_code(token) == Some(key_names()[i].1),
{
    reveal_strlit("BACKSPACE");
    reveal_strlit("TAB");
    reveal_strlit("ENTER");
    reveal_strlit("ESC");
    reveal_strlit("ESCAPE");
    reveal_strlit("SPACE");
    reveal_strlit("PAGEUP");
    reveal_strlit("PAGEDOWN");
    reveal_strlit("END");
    reveal_strlit("HOME");
    reveal_strlit("LEFT");
    reveal_strlit("UP");
    reveal_strlit("RIGHT");
    reveal_strlit("DOWN");
    reveal_strlit("INSERT");
    if i == 12 {
        reveal_strlit("RIGHT");
        assert(key_names()[12] == ("RIGHT"@, 0x27u32));
        assert("RIGHT"@[0] != "ENTER"@[0]);
        assert("RIGHT"@[0] != "SPACE"@[0]);
        lemma_named_key_entry(token, "RIGHT"@, 0x27u32);
    } else if i == 13 {
        reveal_strlit("DOWN");
        assert(key_names()[13] == ("DOWN"@, 0x28u32));
        assert("DOWN"@[0] != "HOME"@[0]);
        assert("DOWN"@[0] != "LEFT"@[0]);
        lemma_named_key_entry(token, "DOWN"@, 0x28u32);
    } else if i == 14 {
        reveal_strlit("INSERT");
        assert(key_names()[14] == ("INSERT"@, 0x2du32));
        assert("INSERT"@[0] != "ESCAPE"@[0]);
        assert("INSERT"@[0] != "PAGEUP"@[0]);
        lemma_named_key_entry(token, "INSERT"@, 0x2du32);
    }
}

proof fn lemma_key_names_from_15(token: Seq<char>, i: int)
    requires
        15 <= i < 18,
        upper_seq(token) == key_names()[i].0,
    ensures
        hotkey_key_code(token) == Some(key_names()[i].1),
{
    reveal_strlit("BACKSPACE");
    reveal_strlit("TAB");
    reveal_strlit("ENTER");
    reveal_strlit("ESC");
    reveal_strlit("ESCAPE");
    reveal_strlit("SPACE");
    reveal_strlit("PAGEUP");
    reveal_strlit("PAGEDOWN");
    reveal_strlit("END");
    reveal_strlit("HOME");
    reveal_strlit("LEFT");
    reveal_strlit("UP");
    reveal_strlit("RIGHT");
    reveal_strlit("DOWN");
    reveal_strlit("INSERT");
    reveal_strlit("DELETE");
    reveal_strlit("PRINTSCREEN");
    reveal_strlit("PAUSE");
    if i == 15 {
        reveal_strlit("DELETE");
        assert(key_names()[15] == ("DELETE"@, 0x2eu32));
        assert("DELETE"@[0] != "ESCAPE"@[0]);
        assert("DELETE"@[0] != "PAGEUP"@[0]);
        assert("DELETE"@[0] != "INSERT"@[0]);
        lemma_named_key_entry(token, "DELETE"@, 0x2eu32);
    } else if i == 16 {
        reveal_strlit("PRINTSCREEN");
        assert(key_names()[16] == ("PRINTSCREEN"@, 0x2cu32));
        lemma_named_key_entry(token, "PRINTSCREEN"@, 0x2cu32);
    } else if i == 17 {
        reveal_strlit("PAUSE");
        assert(key_names()[17] == ("PAUSE"@, 0x13u32));
        assert("PAUSE"@[0] != "ENTER"@[0]);
        assert("PAUSE"@[0] != "SPACE"@[0]);
        assert("PAUSE"@[0] != "RIGHT"@[0]);
        lemma_named_key_entry(token, "PAUSE"@, 0x13u32);
    }
}

proof fn lemma_key_names_from_18(token: Seq<char>, i: int)
    requires
        18 <= i < 21,
        upper_seq(token) == key_names()[i].0,
    ensures
        hotkey_key_code(token) == Some(key_names()[i].1),
{
    reveal_strlit("BACKSPACE");
    reveal_strlit("TAB");
    reveal_strlit("ENTER");
    reveal_strlit("ESC");
    reveal_strlit("ESCAPE");
    reveal_strlit("SPACE");
    reveal_strlit("PAGEUP");
    reveal_strlit("PAGEDOWN");
    reveal_strlit("END");
    reveal_strlit("HOME");
    reveal_strlit("LEFT");
    reveal_strlit("UP");
    reveal_strlit("RIGHT");
    reveal_strlit("DOWN");
    reveal_strlit("INSERT");
    reveal_strlit("DELETE");
    reveal_strlit("PRINTSCREEN");
    reveal_strlit("PAUSE");
    reveal_strlit("CAPSLOCK");
    reveal_strlit("SCROLLLOCK");
    reveal_strlit("NUMPADMULTIPLY");
    if i == 18 {
        reveal_strlit("CAPSLOCK");
        assert(key_names()[18] == ("CAPSLOCK"@, 0x14u32));
        assert("CAPSLOCK"@[0] != "PAGEDOWN"@[0]);
        lemma_named_key_entry(token, "CAPSLOCK"@, 0x14u32);
    } else if i == 19 {
        reveal_strlit("SCROLLLOCK");
        assert(key_names()[19] == ("SCROLLLOCK"@, 0x91u32));
        lemma_named_key_entry(token, "SCROLLLOCK"@, 0x91u32);
    } else if i == 20 {
        reveal_strlit("NUMPADMULTIPLY");
        assert(key_names()[20] == ("NUMPADMULTIPLY"@, 0x6au32));
        lemma_named_key_entry(token, "NUMPADMULTIPLY"@, 0x6au32);
    }
}

proof fn lemma_key_names_from_21(token: Seq<char>, i: int)
    requires
        21 <= i < 24,
        upper_seq(token) == key_names()[i].0,
    ensures
        hotkey_key_code(token) == Some(key_names()[i].1),
{
    reveal_strlit("BACKSPACE");
    reveal_strlit("TAB");
    reveal_strlit("ENTER");
    reveal_strlit("ESC");
    reveal_strlit("ESCAPE");
    reveal_strlit("SPACE");
    reveal_strlit("PAGEUP");
    reveal_strlit("PAGEDOWN");
    reveal_strlit("END");
    reveal_strlit("HOME");
    reveal_strlit("LEFT");
    reveal_strlit("UP");
    reveal_strlit("RIGHT");
    reveal_strlit("DOWN");
    reveal_strlit("INSERT");
    reveal_strlit("DELETE");
    reveal_strlit("PRINTSCREEN");
    reveal_strlit("PAUSE");
    reveal_strlit("CAPSLOCK");
    reveal_strlit("SCROLLLOCK");
    reveal_strlit("NUMPADMULTIPLY");
    reveal_strlit("NUMPADADD");
    reveal_strlit("NUMPADSUBTRACT");
    reveal_strlit("NUMPADDECIMAL");
    if i == 21 {
        reveal_strlit("NUMPADADD");
        assert(key_names()[21] == ("NUMPADADD"@, 0x6bu32));
        assert("NUMPADADD"@[0] != "BACKSPACE"@[0]);
        lemma_named_key_entry(token, "NUMPADADD"@, 0x6bu32);
    } else if i == 22 {
        reveal_strlit("NUMPADSUBTRACT");
        assert(key_names()[22] == ("NUMPADSUBTRACT"@, 0x6du32));
        assert("NUMPADSUBTRACT"@[6] != "NUMPADMULTIPLY"@[6]);
        lemma_named_key_entry(token, "NUMPADSUBTRACT"@, 0x6du32);
    } else if i == 23 {
        reveal_strlit("NUMPADDECIMAL");
        assert(key_names()[23] == ("NUMPADDECIMAL"@, 0x6eu32));
        lemma_named_key_entry(token, "NUMPADDECIMAL"@, 0x6eu32);
    }
}

proof fn lemma_key_names_from_24(token: Seq<char>, i: int)
    requires
        24 <= i < 27,
        upper_seq(token) == key_names()[i].0,
    ensures
        hotkey_key_code(token) == Some(key_names()[i].1),
{
    reveal_strlit("BACKSPACE");
    reveal_strlit("TAB");
    reveal_strlit("ENTER");
    reveal_strlit("ESC");
    reveal_strlit("ESCAPE");
    reveal_strlit("SPACE");
    reveal_strlit("PAGEUP");
    reveal_strlit("PAGEDOWN");
    reveal_strlit("END");
    reveal_strlit("HOME");
    reveal_strlit("LEFT");
    reveal_strlit("UP");
    reveal_strlit("RIGHT");
    reveal_strlit("DOWN");
    reveal_strlit("INSERT");
    reveal_strlit("DELETE");
    reveal_strlit("PRINTSCREEN");
    reveal_strlit("PAUSE");
    reveal_strlit("CAPSLOCK");
    reveal_strlit("SCROLLLOCK");
    reveal_strlit("NUMPADMULTIPLY");
    reveal_strlit("NUMPADADD");
    reveal_strlit("NUMPADSUBTRACT");
    reveal_strlit("NUMPADDECIMAL");
    reveal_strlit("NUMPADDIVIDE");
    reveal_strlit("SEMICOLON");
    reveal_strlit("PLUS");
    if i == 24 {
        reveal_strlit("NUMPADDIVIDE");
        assert(key_names()[24] == ("NUMPADDIVIDE"@, 0x6fu32));
        lemma_named_key_entry(token, "NUMPADDIVIDE"@, 0x6fu32);
    } else if i == 25 {
        reveal_strlit("SEMICOLON");
        assert(key_names()[25] == ("SEMICOLON"@, 0xbau32));
        assert("SEMICOLON"@[0] != "BACKSPACE"@[0]);
        assert("SEMICOLON"@[0] != "NUMPADADD"@[0]);
        lemma_named_key_entry(token, "SEMICOLON"@, 0xbau32);
    } else if i == 26 {
        reveal_strlit("PLUS");
        assert(key_names()[26] == ("PLUS"@, 0xbbu32));
        assert("PLUS"@[0] != "HOME"@[0]);
        assert("PLUS"@[0] != "LEFT"@[0]);
        assert("PLUS"@[0] != "DOWN"@[0]);
        lemma_named_key_entry(token, "PLUS"@, 0xbbu32);
    }
}

proof fn lemma_key_names_from_27(token: Seq<char>, i: int)
    requires
        27 <= i < 30,
        upper_seq(token) == key_names()[i].0,
    ensures
        hotkey_key_code(token) == Some(key_names()[i].1),
{
    reveal_strlit("BACKSPACE");
    reveal_strlit("TAB");
    reveal_strlit("ENTER");
    reveal_strlit("ESC");
    reveal_strlit("ESCAPE");
    reveal_strlit("SPACE");
    reveal_strlit("PAGEUP");
    reveal_strlit("PAGEDOWN");
    reveal_strlit("END");
    reveal_strlit("HOME");
    reveal_strlit("LEFT");
    reveal_strlit("UP");
    reveal_strlit("RIGHT");
    reveal_strlit("DOWN");
    reveal_strlit("INSERT");
    reveal_strlit("DELETE");
    reveal_strlit("PRINTSCREEN");
    reveal_strlit("PAUSE");
    reveal_strlit("CAPSLOCK");
    reveal_strlit("SCROLLLOCK");
    reveal_strlit("NUMPADMULTIPLY");
    reveal_strlit("NUMPADADD");
    reveal_strlit("NUMPADSUBTRACT");
    reveal_strlit("NUMPADDECIMAL");
    reveal_strlit("NUMPADDIVIDE");
    reveal_strlit("SEMICOLON");
    reveal_strlit("PLUS");
    reveal_strlit("COMMA");
    reveal_strlit("MINUS");
    reveal_strlit("PERIOD");
    if i == 27 {
        reveal_strlit("COMMA");
        assert(key_names()[27] == ("COMMA"@, 0xbcu32));
        assert("COMMA"@[0] != "ENTER"@[0]);
        assert("COMMA"@[0] != "SPACE"@[0]);
        assert("COMMA"@[0] != "RIGHT"@[0]);
        assert("COMMA"@[0] != "PAUSE"@[0]);
        lemma_named_key_entry(token, "COMMA"@, 0xbcu32);
    } else if i == 28 {
        reveal_strlit("MINUS");
        assert(key_names()[28] == ("MINUS"@, 0xbdu32));
        assert("MINUS"@[0] != "ENTER"@[0]);
        assert("MINUS"@[0] != "SPACE"@[0]);
        assert("MINUS"@[0] != "RIGHT"@[0]);
        assert("MINUS"@[0] != "PAUSE"@[0]);
        assert("MINUS"@[0] != "COMMA"@[0]);
        lemma_named_key_entry(token, "MINUS"@, 0xbdu32);
    } else if i == 29 {
        reveal_strlit("PERIOD");
        assert(key_names()[29] == ("PERIOD"@, 0xbeu32));
        assert("PERIOD"@[0] != "ESCAPE"@[0]);
        assert("PERIOD"@[1] != "PAGEUP"@[1]);
        assert("PERIOD"@[0] != "INSERT"@[0]);
        assert("PERIOD"@[0] != "DELETE"@[0]);
        lemma_named_key_entry(token, "PERIOD"@, 0xbeu32);
    }
}

proof fn lemma_key_names_from_30(token: Seq<char>, i: int)
    requires
        30 <= i < 33,
        upper_seq(token) == key_names()[i].0,
    ensures
        hotkey_key_code(token) == Some(key_names()[i].1),
{
    reveal_strlit("BACKSPACE");
    reveal_strlit("TAB");
    reveal_strlit("ENTER");
    reveal_strlit("ESC");
    reveal_strlit("ESCAPE");
    reveal_strlit("SPACE");
    reveal_strlit("PAGEUP");
    reveal_strlit("PAGEDOWN");
    reveal_strlit("END");
    reveal_strlit("HOME");
    reveal_strlit("LEFT");
    reveal_strlit("UP");
    reveal_strlit("RIGHT");
    reveal_strlit("DOWN");
    reveal_strlit("INSERT");
    reveal_strlit("DELETE");
    reveal_strlit("PRINTSCREEN");
    reveal_strlit("PAUSE");
    reveal_strlit("CAPSLOCK");
    reveal_strlit("SCROLLLOCK");
    reveal_strlit("NUMPADMULTIPLY");
    reveal_strlit("NUMPADADD");
    reveal_strlit("NUMPADSUBTRACT");
    reveal_strlit("NUMPADDECIMAL");
    reveal_strlit("NUMPADDIVIDE");
    reveal_strlit("SEMICOLON");
    reveal_strlit("PLUS");
    reveal_strlit("COMMA");
    reveal_strlit("MINUS");
    reveal_strlit("PERIOD");
    reveal_strlit("SLASH");
    reveal_strlit("BACKTICK");
    reveal_strlit("BRACKETLEFT");
    if i == 30 {
        reveal_strlit("SLASH");
        assert(key_names()[30] == ("SLASH"@, 0xbfu32));
        assert("SLASH"@[0] != "ENTER"@[0]);
        assert("SLASH"@[1] != "SPACE"@[1]);
        assert("SLASH"@[0] != "RIGHT"@[0]);
        assert("SLASH"@[0] != "PAUSE"@[0]);
        assert("SLASH"@[0] != "COMMA"@[0]);
        assert("SLASH"@[0] != "MINUS"@[0]);
        lemma_named_key_entry(token, "SLASH"@, 0xbfu32);
    } else if i == 31 {
        reveal_strlit("BACKTICK");
        assert(key_names()[31] == ("BACKTICK"@, 0xc0u32));
        assert("BACKTICK"@[0] != "PAGEDOWN"@[0]);
        assert("BACKTICK"@[0] != "CAPSLOCK"@[0]);
        lemma_named_key_entry(token, "BACKTICK"@, 0xc0u32);
    } else if i == 32 {
        reveal_strlit("BRACKETLEFT");
        assert(key_names()[32] == ("BRACKETLEFT"@, 0xdbu32));
        assert("BRACKETLEFT"@[0] != "PRINTSCREEN"@[0]);
        lemma_named_key_entry(token, "BRACKETLEFT"@, 0xdbu32);
    }
}

proof fn lemma_key_names_from_33(token: Seq<char>, i: int)
    requires
        33 <= i < 36,
        upper_seq(token) == key_names()[i].0,
    ensures
        hotkey_key_code(token) == Some(key_names()[i].1),
{
    reveal_strlit("BACKSPACE");
    reveal_strlit("TAB");
    reveal_strlit("ENTER");
    reveal_strlit("ESC");
    reveal_strlit("ESCAPE");
    reveal_strlit("SPACE");
    reveal_strlit("PAGEUP");
    reveal_strlit("PAGEDOWN");
    reveal_strlit("END");
    reveal_strlit("HOME");
    reveal_strlit("LEFT");
    reveal_strlit("UP");
    reveal_strlit("RIGHT");
    reveal_strlit("DOWN");
    reveal_strlit("INSERT");
    reveal_strlit("DELETE");
    reveal_strlit("PRINTSCREEN");
    reveal_strlit("PAUSE");
    reveal_strlit("CAPSLOCK");
    reveal_strlit("SCROLLLOCK");
    reveal_strlit("NUMPADMULTIPLY");
    reveal_strlit("NUMPADADD");
    reveal_strlit("NUMPADSUBTRACT");
    reveal_strlit("NUMPADDECIMAL");
    reveal_strlit("NUMPADDIVIDE");
    reveal_strlit("SEMICOLON");
    reveal_strlit("PLUS");
    reveal_strlit("COMMA");
    reveal_strlit("MINUS");
    reveal_strlit("PERIOD");
    reveal_strlit("SLASH");
    reveal_strlit("BACKTICK");
    reveal_strlit("BRACKETLEFT");
    reveal_strlit("BACKSLASH");
    reveal_strlit("BRACKETRIGHT");
    reveal_strlit("QUOTE");
    if i == 33 {
        reveal_strlit("BACKSLASH");
        assert(key_names()[33] == ("BACKSLASH"@, 0xdcu32));
        assert("BACKSLASH"@[5] != "BACKSPACE"@[5]);
        assert("BACKSLASH"@[0] != "NUMPADADD"@[0]);
        assert("BACKSLASH"@[0] != "SEMICOLON"@[0]);
        lemma_named_key_entry(token, "BACKSLASH"@, 0xdcu32);
    } else if i == 34 {
        reveal_strlit("BRACKETRIGHT");
        assert(key_names()[34] == ("BRACKETRIGHT"@, 0xddu32));
        assert("BRACKETRIGHT"@[0] != "NUMPADDIVIDE"@[0]);
        lemma_named_key_entry(token, "BRACKETRIGHT"@, 0xddu32);
    } else if i == 35 {
        reveal_strlit("QUOTE");
        assert(key_names()[35] == ("QUOTE"@, 0xdeu32));
        assert("QUOTE"@[0] != "ENTER"@[0]);
        assert("QUOTE"@[0] != "SPACE"@[0]);
        assert("QUOTE"@[0] != "RIGHT"@[0]);
        assert("QUOTE"@[0] != "PAUSE"@[0]);
        assert("QUOTE"@[0] != "COMMA"@[0]);
        assert("QUOTE"@[0] != "MINUS"@[0]);
        assert("QUOTE"@[0] != "SLASH"@[0]);
        lemma_named_key_entry(token, "QUOTE"@, 0xdeu32);
    }
}

/// A named key reaches the table of named keys: it is no single character,
/// does not start with `F`, and is no numbered numeric-pad key.
proof fn lemma_named_key_entry(token: Seq<char>, name: Seq<char>, code: u32)
    requires
        upper_seq(token) == name,
        named_key(name) == Some(code),
        name.len() >= 2,
        name[0] != 'F',
        name.len() > 6 ==> !is_digit(name[6]) && name[6] != '+',
    ensures
        hotkey_key_code(token) == Some(code),
{
    reveal_strlit("NUMPAD");
    let upper = upper_seq(token);
    if upper.len() >= 6 && upper.take(6) == "NUMPAD"@ {
        let rest = upper.skip(6);
        if rest.len() > 0 {
            assert(rest[0] == name[6]);
            assert(!all_digits(unsigned_digits(rest)));
        }
    }
}

/// A single letter or digit, in either case, stands for the virtual-key
/// code of its upper-case character (`VK_A`..`VK_Z` are `'A'`..`'Z'`,
/// `VK_0`..`VK_9` are `'0'`..`'9'`).
pub proof fn law_letters_and_digits_map_to_their_codes(c: char)
    requires
        ('0' <= c <= '9') || ('A' <= c <= 'Z') || ('a' <= c <= 'z'),
    ensures
        hotkey_key_code(seq![c]) == Some(if 'a' <= c <= 'z' { (c as u32 - 32) as u32 } else { c as u32 }),
{
    assert(upper_seq(seq![c]).len() == 1);
    assert(upper_seq(seq![c])[0] == ascii_upper(c));
}

/// `F1`..`F24`, in either case, stand for `VK_F1`..`VK_F24` (0x70..0x87).
pub proof fn law_function_keys_map_to_their_codes(token: Seq<char>, n: nat)
    requires
        1 <= n <= 24,
        upper_seq(token) == seq!['F'] + decimal_digits(n),
    ensures
        hotkey_key_code(token) == Some((0x70 + n - 1) as u32),
{
    let upper = upper_seq(token);
    let d = decimal_digits(n);
    lemma_decimal_digits_value(n);
    lemma_decimal_digits_are_digits(n);
    assert(upper.drop_first() =~= d);
    assert(is_digit(d[0]));
    assert(unsigned_digits(d) == d);
}

/// `NUMPAD0`..`NUMPAD9`, in any case, stand for `VK_NUMPAD0`..`VK_NUMPAD9`
/// (0x60..0x69).
pub proof fn law_numpad_digits_map_to_their_codes(token: Seq<char>, n: nat)
    requires
        n <= 9,
        upper_seq(token) == "NUMPAD"@ + decimal_digits(n),
    ensures
        hotkey_key_code(token) == Some((0x60 + n) as u32),
{
    reveal_strlit("NUMPAD");
    let upper = upper_seq(token);
    let d = decimal_digits(n);
    lemma_decimal_digits_value(n);
    lemma_decimal_digits_are_digits(n);
    assert(upper.take(6) =~= "NUMPAD"@);
    assert(upper.skip(6) =~= d);
    assert(upper[0] == 'N');
    assert(is_digit(d[0]));
    assert(unsigned_digits(d) == d);
}

/// The modifier names, in any case, stand for the modifier keys: Ctrl and
/// Control `VK_CONTROL`, Alt `VK_MENU`, Shift `VK_SHIFT`, and Win, Windows
/// and Meta `VK_LWIN`.
pub proof fn law_modifier_names_map_to_their_codes(token: Seq<char>)
    ensures
        lower_seq(token) == "ctrl"@ || lower_seq(token) == "control"@ ==> token_code(token) == Some(0x11u32),
        lower_seq(token) == "alt"@ ==> token_code(token) == Some(0x12u32),
        lower_seq(token) == "shift"@ ==> token_code(token) == Some(0x10u32),
        lower_seq(token) == "win"@ || lower_seq(token) == "windows"@ || lower_seq(token) == "meta"@
            ==> token_code(token) == Some(0x5bu32),
{
    reveal_strlit("ctrl");
    reveal_strlit("control");
    reveal_strlit("alt");
    reveal_strlit("shift");
    reveal_strlit("win");
    reveal_strlit("windows");
    reveal_strlit("meta");
    let lower = lower_seq(token);
    if lower == "alt"@ {
        assert(lower.len() == 3);
        assert(lower != "ctrl"@ && lower != "control"@);
    }
    if lower == "shift"@ {
        assert(lower.len() == 5);
        assert(lower != "ctrl"@ && lower != "control"@ && lower != "alt"@);
    }
    if lower == "win"@ {
        assert(lower[0] == 'w' && "alt"@[0] == 'a');
    }
    if lower == "windows"@ {
        assert(lower[0] == 'w' && "control"@[0] == 'c');
    }
    if lower == "meta"@ {
        assert(lower[0] == 'm' && "ctrl"@[0] == 'c');
    }
}

/// Ctrl and one more key, joined by `+`, make a shortcut of exactly those
/// two keys (Ctrl first, as written): for a key token without `+` and
/// without surrounding white space that names a key other than a modifier.
pub proof fn law_ctrl_plus_key_parses(key: Seq<char>)
    requires
        key.len() > 0,
        !key.contains('+'),
        !is_white(key[0]),
        !is_white(key.last()),
        token_code(key) is Some,
        !is_modifier_key(token_code(key)->0),
    ensures
        hotkey_keys("Ctrl+"@ + key) == Ok::<Seq<u32>, Seq<char>>(seq![0x11u32, normalized_key(token_code(key)->0)]),
{
    reveal_strlit("Ctrl+");
    reveal_strlit("Ctrl");
    reveal_strlit("ctrl");
    let ctrl = "Ctrl"@;
    let value = "Ctrl+"@ + key;
    assert(!ctrl.contains('+')) by {
        if ctrl.contains('+') {
            let j = choose|j: int| 0 <= j < ctrl.len() && ctrl[j] == '+';
        }
    }
    let rest = seq!['+'] + key;
    assert(value =~= ctrl + rest);
    lemma_first_index_shift(ctrl, rest, '+');
    assert(first_index_of(rest, '+') == 0);
    assert(first_index_of(value, '+') == 4);
    assert(value.take(4) =~= ctrl);
    assert(value.skip(5) =~= key);
    lemma_first_index_bounds(key, '+');
    if first_index_of(key, '+') < key.len() {
        assert(key.contains('+'));
    }
    assert(split_on(key, '+') == seq![key]);
    let pieces = split_on(value, '+');
    assert(pieces =~= seq![ctrl, key]);
    assert(trim_start(ctrl) == ctrl);
    assert(trim_end(ctrl) == ctrl);
    assert(trim(ctrl) == ctrl);
    assert(trim_start(key) == key);
    assert(trim_end(key) == key);
    assert(trim(key) == key);
    assert(pieces.drop_last() =~= seq![ctrl]);
    assert(seq![ctrl].drop_last() =~= Seq::<Seq<char>>::empty());
    assert(nonempty_trimmed(Seq::<Seq<char>>::empty()) == Seq::<Seq<char>>::empty());
    assert(seq![ctrl].last() == ctrl);
    assert(nonempty_trimmed(seq![ctrl]) == Seq::<Seq<char>>::empty().push(ctrl));
    assert(nonempty_trimmed(seq![ctrl]) =~= seq![ctrl]);
    let tokens = hotkey_tokens(value);
    assert(tokens =~= seq![ctrl, key]);
    assert(lower_seq(ctrl) =~= "ctrl"@);
    assert(token_code(ctrl) == Some(0x11u32));
    assert(tokens.drop_last() =~= seq![ctrl]);
    assert(collect_keys(seq![ctrl]) == Ok::<Seq<u32>, Seq<char>>(seq![0x11u32])) by {
        assert(seq![ctrl].drop_last() =~= Seq::<Seq<char>>::empty());
        assert(collect_keys(Seq::<Seq<char>>::empty()) == Ok::<Seq<u32>, Seq<char>>(Seq::<u32>::empty()));
        assert(seq![ctrl].last() == ctrl);
        assert(normalized_key(0x11u32) == 0x11u32);
        assert(!Seq::<u32>::empty().contains(0x11u32));
        assert(seq![0x11u32] =~= Seq::<u32>::empty().push(0x11u32));
    }
    let k = normalized_key(token_code(key)->0);
    assert(!seq![0x11u32].contains(k)) by {
        if seq![0x11u32].contains(k) {
            let j = choose|j: int| 0 <= j < 1 && seq![0x11u32][j] == k;
        }
    }
    assert(collect_keys(tokens) == Ok::<Seq<u32>, Seq<char>>(seq![0x11u32].push(k)));
    assert(seq![0x11u32].push(k) =~= seq![0x11u32, k]);
    assert(!is_modifier_key(seq![0x11u32, k][1]));
}

} // verus!
