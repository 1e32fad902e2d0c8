//! Names the application makes or checks: fence titles and folder names,
//! colour values, Windows item names, and the text it writes into the
//! registry and the log.

use vstd::prelude::*;
use crate::ids::{is_lower_hex, random_uuid_text};
use crate::ipc::EXPLORER_COMMAND_CLSID_TEXT;
use crate::text::{
    ascii_upper, chars_are, chars_of, decimal_chars, decimal_digits, is_control, is_control_char,
    is_white, lower_chars, lower_seq, string_from_chars, take_chars, take_chars_exec, trim,
    trim_chars, trim_end, trim_start, upper_chars, upper_seq,
};

verus! {

/// Characters a Windows file name cannot hold.
pub open spec fn is_reserved_char(c: char) -> bool {
    c == '<' || c == '>' || c == ':' || c == '"' || c == '/' || c == '\\' || c == '|' || c == '?'
        || c == '*'
}

fn is_reserved_char_exec(c: char) -> (r: bool)
    ensures
        r == is_reserved_char(c),
{
    c == '<' || c == '>' || c == ':' || c == '"' || c == '/' || c == '\\' || c == '|' || c == '?'
        || c == '*'
}

/// Reserved and control characters replaced by spaces.
pub open spec fn blank_reserved(s: Seq<char>) -> Seq<char> {
    s.map_values(|c: char| if is_reserved_char(c) || is_control(c) { ' ' } else { c })
}

/// `s` without trailing full stops.
pub open spec fn trim_end_dots(s: Seq<char>) -> Seq<char>
    decreases s.len(),
{
    if s.len() > 0 && s.last() == '.' {
        trim_end_dots(s.drop_last())
    } else {
        s
    }
}

/// The folder name a title yields before the fallback: trimmed, reserved
/// and control characters blanked, trimmed again, trailing dots removed.
pub open spec fn cleaned_title(title: Seq<char>) -> Seq<char> {
    trim_end_dots(trim(blank_reserved(trim(title))))
}

pub open spec fn fallback_folder_prefix() -> Seq<char> {
    "收纳盒-"@
}

/// A folder name for a fence titled `title`: the cleaned title, at most 60
/// characters, or, when nothing is left of it, `收纳盒-` and eight random
/// lowercase hexadecimal digits.
pub fn safe_directory_name(title: &str) -> (name: String)
    ensures
        cleaned_title(title@).len() > 0 ==> name@ == take_chars(cleaned_title(title@), 60),
        cleaned_title(title@).len() == 0 ==> {
            &&& name@.len() == 12
            &&& name@.take(4) == fallback_folder_prefix()
            &&& forall|i: int| 4 <= i < 12 ==> is_lower_hex(#[trigger] name@[i])
        },
{
    let chars = chars_of(title);
    let trimmed = trim_chars(&chars);
    let mut blanked: Vec<char> = Vec::new();
    let mut i: usize = 0;
    while i < trimmed.len()
        invariant
            i <= trimmed@.len(),
            blanked@ == blank_reserved(trimmed@).take(i as int),
        decreases trimmed@.len() - i,
    {
        let c = trimmed[i];
        let d = if is_reserved_char_exec(c) || is_control_char(c) {
            ' '
        } else {
            c
        };
        blanked.push(d);
        assert(blank_reserved(trimmed@).take(i + 1) =~= blank_reserved(trimmed@).take(i as int).push(d));
        i = i + 1;
    }
    assert(blank_reserved(trimmed@).take(i as int) =~= blank_reserved(trimmed@));
    let again = trim_chars(&blanked);
    let mut end = again.len();
    assert(again@.take(end as int) =~= again@);
    while end > 0 && again[end - 1] == '.'
        invariant
            end <= again@.len(),
            trim_end_dots(again@) == trim_end_dots(again@.take(end as int)),
        decreases end,
    {
        assert(again@.take(end as int).drop_last() =~= again@.take(end - 1));
        end = end - 1;
    }
    let cleaned = take_chars_exec(&again, end);
    assert(again@.take(end as int) =~= cleaned@);
    if cleaned.len() == 0 {
        let id = chars_of(random_uuid_text().as_str());
        let mut name = chars_of("收纳盒-");
        proof {
            reveal_strlit("收纳盒-");
        }
        let mut k: usize = 0;
        while k < 8
            invariant
                k <= 8,
                id@.len() == 36,
                forall|i: int| 0 <= i < 36 && i != 8 && i != 13 && i != 18 && i != 23 ==> is_lower_hex(#[trigger] id@[i]),
                name@.len() == 4 + k,
                name@.take(4) == fallback_folder_prefix(),
                forall|i: int| 4 <= i < 4 + k ==> is_lower_hex(#[trigger] name@[i]),
            decreases 8 - k,
        {
            name.push(id[k]);
            k = k + 1;
        }
        return string_from_chars(&name);
    }
    let limited = take_chars_exec(&cleaned, 60);
    string_from_chars(&limited)
}

/// Whether `f` holds of every character of `s`.
pub open spec fn all_chars(s: Seq<char>, f: spec_fn(char) -> bool) -> bool {
    forall|i: int| 0 <= i < s.len() ==> f(#[trigger] s[i])
}

proof fn lemma_trimming_keeps_all_chars(s: Seq<char>, f: spec_fn(char) -> bool)
    requires
        all_chars(s, f),
    ensures
        all_chars(trim_start(s), f),
        all_chars(trim_end(s), f),
        all_chars(trim_end_dots(s), f),
    decreases s.len(),
{
    if s.len() > 0 {
        assert(all_chars(s.drop_first(), f)) by {
            assert forall|i: int| 0 <= i < s.drop_first().len() implies f(#[trigger] s.drop_first()[i]) by {
                assert(s.drop_first()[i] == s[i + 1]);
            }
        }
        assert(all_chars(s.drop_last(), f)) by {
            assert forall|i: int| 0 <= i < s.drop_last().len() implies f(#[trigger] s.drop_last()[i]) by {
                assert(s.drop_last()[i] == s[i]);
            }
        }
        lemma_trimming_keeps_all_chars(s.drop_first(), f);
        lemma_trimming_keeps_all_chars(s.drop_last(), f);
    }
}

/// A folder name made from a title holds no character that Windows
/// refuses in file names, and no control character.
pub proof fn law_folder_names_avoid_reserved_characters(title: Seq<char>)
    requires
        cleaned_title(title).len() > 0,
    ensures
        all_chars(take_chars(cleaned_title(title), 60), |c: char| !is_reserved_char(c) && !is_control(c)),
{
    let f = |c: char| !is_reserved_char(c) && !is_control(c);
    let b = blank_reserved(trim(title));
    assert(all_chars(b, f)) by {
        assert forall|i: int| 0 <= i < b.len() implies f(#[trigger] b[i]) by {
            let c = trim(title)[i];
            assert(b[i] == (if is_reserved_char(c) || is_control(c) { ' ' } else { c }));
        }
    }
    lemma_trimming_keeps_all_chars(b, f);
    lemma_trimming_keeps_all_chars(trim_start(b), f);
    let t = trim(b);
    lemma_trimming_keeps_all_chars(t, f);
    let c = cleaned_title(title);
    assert(all_chars(take_chars(c, 60), f)) by {
        assert forall|i: int| 0 <= i < take_chars(c, 60).len() implies f(#[trigger] take_chars(c, 60)[i]) by {
            assert(take_chars(c, 60)[i] == c[i]);
        }
    }
}

pub open spec fn empty_title_error() -> Seq<char> {
    "盒子名称不能为空"@
}

/// A fence title as stored: trimmed and at most 80 characters; an empty
/// title is refused.
pub fn normalized_title(title: &str) -> (r: Result<String, String>)
    ensures
        match r {
            Ok(t) => t@ == take_chars(trim(title@), 80) && t@.len() > 0,
            Err(e) => take_chars(trim(title@), 80).len() == 0 && e@ == empty_title_error(),
        },
{
    let chars = chars_of(title);
    let trimmed = trim_chars(&chars);
    let limited = take_chars_exec(&trimmed, 80);
    if limited.len() == 0 {
        Err(String::from_str("盒子名称不能为空"))
    } else {
        Ok(string_from_chars(&limited))
    }
}

pub open spec fn is_named_color(v: Seq<char>) -> bool {
    v == "coral"@ || v == "sage"@ || v == "butter"@ || v == "sky"@ || v == "lilac"@ || v
        == "graphite"@
}

pub open spec fn is_material(v: Seq<char>) -> bool {
    v == "paper"@ || v == "frosted"@
}

pub open spec fn is_ascii_hex(c: char) -> bool {
    ('0' <= c && c <= '9') || ('a' <= c && c <= 'f') || ('A' <= c && c <= 'F')
}

pub open spec fn is_hex_color_text(v: Seq<char>) -> bool {
    v.len() == 7 && v[0] == '#' && forall|i: int| 1 <= i < 7 ==> is_ascii_hex(#[trigger] v[i])
}

/// A colour value as stored: a named colour (or material, where allowed)
/// as it is, a `#rrggbb` colour in upper case, anything else replaced by
/// the fallback.
pub open spec fn normalized_color(value: Seq<char>, fallback: Seq<char>, allow_materials: bool) -> Seq<char> {
    let v = trim(value);
    if is_named_color(v) || (allow_materials && is_material(v)) {
        v
    } else if is_hex_color_text(v) {
        upper_seq(v)
    } else {
        fallback
    }
}

proof fn lemma_trim_keeps_unpadded(s: Seq<char>)
    requires
        s.len() > 0,
        !is_white(s[0]),
        !is_white(s.last()),
    ensures
        trim(s) == s,
{
    assert(trim_start(s) == s);
}

proof fn lemma_color_words_are_unpadded()
    ensures
        forall|w: Seq<char>| (is_named_color(w) || is_material(w)) ==> w.len() > 0 && !is_white(w[0])
            && !is_white(w.last()) && w[0] != '#',
{
    reveal_strlit("coral");
    reveal_strlit("sage");
    reveal_strlit("butter");
    reveal_strlit("sky");
    reveal_strlit("lilac");
    reveal_strlit("graphite");
    reveal_strlit("paper");
    reveal_strlit("frosted");
}

/// Normalising a stored colour value again changes nothing, as long as the
/// fallback is itself a value that is kept.
pub proof fn law_color_normalization_is_stable(value: Seq<char>, fallback: Seq<char>, allow_materials: bool)
    requires
        is_named_color(fallback) || (allow_materials && is_material(fallback)),
    ensures
        normalized_color(normalized_color(value, fallback, allow_materials), fallback, allow_materials)
            == normalized_color(value, fallback, allow_materials),
{
    lemma_color_words_are_unpadded();
    let v = trim(value);
    let once = normalized_color(value, fallback, allow_materials);
    if is_named_color(v) || (allow_materials && is_material(v)) {
        lemma_trim_keeps_unpadded(v);
    } else if is_hex_color_text(v) {
        let u = upper_seq(v);
        assert(u[0] == '#');
        assert(u.last() == ascii_upper(v[6]));
        lemma_trim_keeps_unpadded(u);
        assert(!is_named_color(u) && !is_material(u));
        assert forall|i: int| 1 <= i < 7 implies is_ascii_hex(#[trigger] u[i]) by {
            assert(is_ascii_hex(v[i]));
        }
        assert(upper_seq(u) =~= u);
    } else {
        lemma_trim_keeps_unpadded(fallback);
    }
}

pub fn normalize_color_value(value: &str, fallback: &str, allow_materials: bool) -> (r: String)
    ensures
        r@ == normalized_color(value@, fallback@, allow_materials),
{
    let chars = chars_of(value);
    let v = trim_chars(&chars);
    let named = chars_are(&v, "coral") || chars_are(&v, "sage") || chars_are(&v, "butter")
        || chars_are(&v, "sky") || chars_are(&v, "lilac") || chars_are(&v, "graphite");
    let material = chars_are(&v, "paper") || chars_are(&v, "frosted");
    if named || (allow_materials && material) {
        return string_from_chars(&v);
    }
    if v.len() == 7 && v[0] == '#' {
        let mut all_hex = true;
        let mut i: usize = 1;
        while i < 7
            invariant
                1 <= i <= 7,
                v@.len() == 7,
                all_hex == forall|j: int| 1 <= j < i ==> is_ascii_hex(#[trigger] v@[j]),
            decreases 7 - i,
        {
            let c = v[i];
            if !(('0' <= c && c <= '9') || ('a' <= c && c <= 'f') || ('A' <= c && c <= 'F')) {
                all_hex = false;
            }
            i = i + 1;
        }
        if all_hex {
            let upper = upper_chars(&v);
            return string_from_chars(&upper);
        }
    }
    String::from_str(fallback)
}

pub open spec fn empty_item_name_error() -> Seq<char> {
    "项目名称不能为空"@
}

pub open spec fn dot_item_name_error() -> Seq<char> {
    "项目名称不能是 . 或 .."@
}

pub open spec fn trailing_item_name_error() -> Seq<char> {
    "项目名称不能以空格或句点结尾"@
}

pub open spec fn invalid_char_item_name_error() -> Seq<char> {
    "项目名称包含 Windows 不允许的字符"@
}

pub open spec fn device_item_name_error() -> Seq<char> {
    "项目名称是 Windows 保留设备名"@
}

/// The part of a name before its first full stop.
pub open spec fn before_first_dot(s: Seq<char>) -> Seq<char>
    decreases s.len(),
{
    if s.len() == 0 || s[0] == '.' {
        seq![]
    } else {
        seq![s[0]] + before_first_dot(s.drop_first())
    }
}

/// `s` without trailing spaces and full stops.
pub open spec fn trim_end_spaces_dots(s: Seq<char>) -> Seq<char>
    decreases s.len(),
{
    if s.len() > 0 && (s.last() == ' ' || s.last() == '.') {
        trim_end_spaces_dots(s.drop_last())
    } else {
        s
    }
}

/// The device name Windows would read in a file name.
pub open spec fn device_part(name: Seq<char>) -> Seq<char> {
    upper_seq(trim_end_spaces_dots(before_first_dot(name)))
}

pub open spec fn is_reserved_device(d: Seq<char>) -> bool {
    d == "CON"@ || d == "PRN"@ || d == "AUX"@ || d == "NUL"@ || (d.len() == 4 && (d.take(3) == "COM"@
        || d.take(3) == "LPT"@) && '1' <= d[3] && d[3] <= '9')
}

pub open spec fn has_forbidden_char(name: Seq<char>) -> bool {
    exists|i: int| 0 <= i < name.len() && ((#[trigger] name[i]) < ' ' || is_reserved_char(name[i]))
}

/// Why Windows would refuse `name` as a file or folder name, if it would.
pub open spec fn item_name_problem(name: Seq<char>) -> Option<Seq<char>> {
    if name.len() == 0 {
        Some(empty_item_name_error())
    } else if name == "."@ || name == ".."@ {
        Some(dot_item_name_error())
    } else if name.last() == ' ' || name.last() == '.' {
        Some(trailing_item_name_error())
    } else if has_forbidden_char(name) {
        Some(invalid_char_item_name_error())
    } else if is_reserved_device(device_part(name)) {
        Some(device_item_name_error())
    } else {
        None
    }
}

fn before_first_dot_exec(v: &Vec<char>) -> (r: Vec<char>)
    ensures
        r@ == before_first_dot(v@),
{
    let mut r: Vec<char> = Vec::new();
    let mut i: usize = 0;
    assert(v@.skip(0) =~= v@);
    assert(r@ + before_first_dot(v@) =~= before_first_dot(v@));
    while i < v.len() && v[i] != '.'
        invariant
            i <= v@.len(),
            before_first_dot(v@) == r@ + before_first_dot(v@.skip(i as int)),
        decreases v@.len() - i,
    {
        assert(v@.skip(i as int).drop_first() =~= v@.skip(i + 1));
        assert(before_first_dot(v@.skip(i as int)) =~= seq![v@[i as int]] + before_first_dot(v@.skip(i + 1)));
        r.push(v[i]);
        assert(r@ + before_first_dot(v@.skip(i + 1)) =~= r@.drop_last() + (seq![v@[i as int]] + before_first_dot(v@.skip(i + 1))));
        i = i + 1;
    }
    assert(before_first_dot(v@.skip(i as int)) =~= seq![]);
    assert(r@ + seq![] =~= r@);
    r
}

fn trim_end_spaces_dots_exec(v: &Vec<char>) -> (r: Vec<char>)
    ensures
        r@ == trim_end_spaces_dots(v@),
{
    let mut end = v.len();
    assert(v@.take(end as int) =~= v@);
    while end > 0 && (v[end - 1] == ' ' || v[end - 1] == '.')
        invariant
            end <= v@.len(),
            trim_end_spaces_dots(v@) == trim_end_spaces_dots(v@.take(end as int)),
        decreases end,
    {
        assert(v@.take(end as int).drop_last() =~= v@.take(end - 1));
        end = end - 1;
    }
    let r = take_chars_exec(v, end);
    assert(r@ =~= v@.take(end as int));
    r
}

/// Checks that Windows accepts `name` as the name of a file or folder.
pub fn validate_windows_item_name(name: &str) -> (r: Result<(), String>)
    ensures
        match item_name_problem(name@) {
            None => r is Ok,
            Some(problem) => r matches Err(e) && e@ == problem,
        },
{
    let v = chars_of(name);
    if v.len() == 0 {
        return Err(String::from_str("项目名称不能为空"));
    }
    if chars_are(&v, ".") || chars_are(&v, "..") {
        return Err(String::from_str("项目名称不能是 . 或 .."));
    }
    let last = v[v.len() - 1];
    if last == ' ' || last == '.' {
        return Err(String::from_str("项目名称不能以空格或句点结尾"));
    }
    let mut i: usize = 0;
    while i < v.len()
        invariant
            i <= v@.len(),
            v@ == name@,
            v@.len() > 0,
            !(v@ == "."@ || v@ == ".."@),
            !(v@.last() == ' ' || v@.last() == '.'),
            forall|j: int| 0 <= j < i ==> !((#[trigger] v@[j]) < ' ' || is_reserved_char(v@[j])),
        decreases v@.len() - i,
    {
        let c = v[i];
        if c < ' ' || is_reserved_char_exec(c) {
            assert(has_forbidden_char(v@)) by {
                assert(v@[i as int] < ' ' || is_reserved_char(v@[i as int]));
            }
            return Err(String::from_str("项目名称包含 Windows 不允许的字符"));
        }
        i = i + 1;
    }
    let first = before_first_dot_exec(&v);
    let trimmed = trim_end_spaces_dots_exec(&first);
    let device = upper_chars(&trimmed);
    let reserved = chars_are(&device, "CON") || chars_are(&device, "PRN") || chars_are(&device, "AUX")
        || chars_are(&device, "NUL") || (device.len() == 4 && {
        let head = take_chars_exec(&device, 3);
        assert(head@ == device@.take(3));
        (chars_are(&head, "COM") || chars_are(&head, "LPT")) && '1' <= device[3] && device[3] <= '9'
    });
    if reserved {
        return Err(String::from_str("项目名称是 Windows 保留设备名"));
    }
    Ok(())
}

pub open spec fn new_folder_base() -> Seq<char> {
    "新建文件夹"@
}

/// The name suggested for the `index`-th new folder: `新建文件夹`, then
/// `新建文件夹 (2)`, `新建文件夹 (3)`, …
pub open spec fn new_folder_name_text(index: nat) -> Seq<char> {
    if index == 1 {
        new_folder_base()
    } else {
        new_folder_base() + " ("@ + decimal_digits(index) + ")"@
    }
}

pub fn new_folder_name(index: u64) -> (name: String)
    ensures
        name@ == new_folder_name_text(index as nat),
{
    if index == 1 {
        return String::from_str("新建文件夹");
    }
    let mut name = String::from_str("新建文件夹 (");
    let digits = string_from_chars(&decimal_chars(index));
    name.append(digits.as_str());
    name.append(")");
    proof {
        reveal_strlit("新建文件夹 (");
        reveal_strlit("新建文件夹");
        reveal_strlit(" (");
    }
    assert(name@ =~= new_folder_base() + " ("@ + decimal_digits(index as nat) + ")"@);
    name
}

/// The name an incoming file takes when its own name is taken: the stem,
/// then ` (index)`, then the extension after a dot when there is one, so
/// that `name.ext` becomes `name (2).ext`, `name (3).ext`, …
pub open spec fn numbered_name_text(stem: Seq<char>, extension: Option<Seq<char>>, index: nat) -> Seq<char> {
    let numbered = stem + " ("@ + decimal_digits(index) + ")"@;
    match extension {
        Some(e) => numbered + "."@ + e,
        None => numbered,
    }
}

pub fn numbered_file_name(stem: &str, extension: Option<&str>, index: u64) -> (name: String)
    ensures
        name@ == numbered_name_text(
            stem@,
            match extension {
                Some(e) => Some(e@),
                None => None,
            },
            index as nat,
        ),
{
    let mut name = String::from_str(stem);
    name.append(" (");
    let digits = string_from_chars(&decimal_chars(index));
    name.append(digits.as_str());
    name.append(")");
    proof {
        reveal_strlit(" (");
        reveal_strlit(")");
        reveal_strlit(".");
    }
    match extension {
        Some(e) => {
            name.append(".");
            name.append(e);
        },
        None => {},
    }
    name
}

/// File extensions whose items get a shell thumbnail, in lower case.
pub open spec fn thumbnail_extensions() -> Seq<Seq<char>> {
    seq![
        "png"@, "jpg"@, "jpeg"@, "jpe"@, "gif"@, "webp"@, "bmp"@, "tif"@, "tiff"@, "heic"@,
        "heif"@, "avif"@, "ico"@, "svg"@, "psd"@, "raw"@, "dng"@, "mp4"@, "m4v"@, "mov"@,
        "mkv"@, "avi"@, "wmv"@, "webm"@, "mpg"@, "mpeg"@, "mp3"@, "m4a"@, "flac"@, "wav"@,
        "wma"@, "ogg"@, "pdf"@,
    ]
}

/// Whether an item with this extension gets a thumbnail (in any letter case).
pub fn thumbnail_extension(extension: &str) -> (r: bool)
    ensures
        r == thumbnail_extensions().contains(lower_seq(extension@)),
{
    let lower = lower_chars(&chars_of(extension));
    let list: Vec<&'static str> = vec![
        "png", "jpg", "jpeg", "jpe", "gif", "webp", "bmp", "tif", "tiff", "heic", "heif", "avif",
        "ico", "svg", "psd", "raw", "dng", "mp4", "m4v", "mov", "mkv", "avi", "wmv", "webm",
        "mpg", "mpeg", "mp3", "m4a", "flac", "wav", "wma", "ogg", "pdf",
    ];
    let ghost texts = list@.map_values(|s: &str| s@);
    assert(texts =~= thumbnail_extensions());
    let mut i: usize = 0;
    while i < list.len()
        invariant
            i <= list@.len(),
            texts == list@.map_values(|s: &str| s@),
            texts == thumbnail_extensions(),
            lower@ == lower_seq(extension@),
            forall|j: int| 0 <= j < i ==> texts[j] != lower@,
        decreases list@.len() - i,
    {
        if chars_are(&lower, list[i]) {
            assert(texts[i as int] == lower@);
            return true;
        }
        i = i + 1;
    }
    false
}

/// The registry command that runs `executable` with `argument`; the
/// executable's path is quoted, as it may hold spaces.
pub fn command_line(executable: &str, argument: &str) -> (line: String)
    ensures
        line@ == "\""@ + executable@ + "\" "@ + argument@,
{
    let mut line = String::from_str("\"");
    line.append(executable);
    line.append("\" ");
    line.append(argument);
    line
}

/// The registry key of the Explorer command's in-process server.
pub fn class_key() -> (key: String)
    ensures
        key@ == "Software\\Classes\\CLSID\\"@ + EXPLORER_COMMAND_CLSID_TEXT@ + "\\InprocServer32"@,
{
    let mut key = String::from_str("Software\\Classes\\CLSID\\");
    key.append(EXPLORER_COMMAND_CLSID_TEXT);
    key.append("\\InprocServer32");
    key
}

/// The start-up arguments as the log shows them: the program name left out,
/// flags kept, the folder after `--map-folder` shown as `<path>` and any
/// other argument as `<argument>`.
pub open spec fn redacted_from(args: Seq<Seq<char>>, i: int, hide_next: bool) -> Seq<Seq<char>>
    decreases args.len() - i,
{
    if i < 1 || i >= args.len() {
        seq![]
    } else if hide_next {
        seq!["<path>"@] + redacted_from(args, i + 1, false)
    } else if args[i] == "--map-folder"@ {
        seq![args[i]] + redacted_from(args, i + 1, true)
    } else if args[i].len() >= 2 && args[i].take(2) == "--"@ {
        seq![args[i]] + redacted_from(args, i + 1, false)
    } else {
        seq!["<argument>"@] + redacted_from(args, i + 1, false)
    }
}

pub fn redacted_arguments(arguments: &[String]) -> (redacted: Vec<String>)
    ensures
        redacted@.map_values(|a: String| a@) == redacted_from(
            arguments@.map_values(|a: String| a@),
            1,
            false,
        ),
{
    let ghost args = arguments@.map_values(|a: String| a@);
    let mut redacted: Vec<String> = Vec::new();
    let mut hide_next = false;
    if arguments.len() <= 1 {
        assert(redacted@.map_values(|a: String| a@) =~= seq![]);
        return redacted;
    }
    let mut i: usize = 1;
    while i < arguments.len()
        invariant
            1 <= i <= arguments@.len(),
            args == arguments@.map_values(|a: String| a@),
            redacted_from(args, 1, false) == redacted@.map_values(|a: String| a@) + redacted_from(
                args,
                i as int,
                hide_next,
            ),
        decreases arguments@.len() - i,
    {
        let argument = &arguments[i];
        let chars = chars_of(argument.as_str());
        assert(chars@ == args[i as int]);
        let ghost before = redacted@.map_values(|a: String| a@);
        let ghost was_hidden = hide_next;
        let entry = if hide_next {
            hide_next = false;
            String::from_str("<path>")
        } else if chars_are(&chars, "--map-folder") {
            hide_next = true;
            argument.clone()
        } else if chars.len() >= 2 && chars[0] == '-' && chars[1] == '-' {
            proof {
                reveal_strlit("--");
                assert(chars@.take(2) =~= "--"@);
            }
            argument.clone()
        } else {
            proof {
                reveal_strlit("--");
                if chars@.len() >= 2 {
                    assert(chars@.take(2) != "--"@ ) by {
                        if chars@.take(2) == "--"@ {
                            assert(chars@.take(2)[0] == '-');
                            assert(chars@.take(2)[1] == '-');
                        }
                    }
                }
            }
            String::from_str("<argument>")
        };
        redacted.push(entry);
        assert(redacted@.map_values(|a: String| a@) =~= before.push(entry@));
        assert(redacted_from(args, i as int, was_hidden) == seq![entry@] + redacted_from(args, i + 1, hide_next));
        assert(before + redacted_from(args, i as int, was_hidden) =~= redacted@.map_values(|a: String| a@) + redacted_from(args, i + 1, hide_next));
        i = i + 1;
    }
    assert(redacted_from(args, i as int, hide_next) =~= seq![]);
    assert(redacted@.map_values(|a: String| a@) + seq![] =~= redacted@.map_values(|a: String| a@));
    redacted
}

/// The first `max_chars` characters of `value`.
pub fn truncate(value: &str, max_chars: usize) -> (r: String)
    ensures
        r@ == take_chars(value@, max_chars as nat),
{
    let chars = chars_of(value);
    string_from_chars(&take_chars_exec(&chars, max_chars))
}

} // verus!
