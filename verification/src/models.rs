//! The fence settings the control window edits, the input of a new fence,
//! the stored defaults, and how edits are normalised.

use vstd::prelude::*;
use crate::names::{normalize_color_value, normalized_color, normalized_title, empty_title_error};
use crate::text::{chars_of, string_from_chars, take_chars, take_chars_exec, trim, trim_chars};

verus! {

/// Changes to a fence's settings; geometry is not among them, as only the
/// desktop host moves and sizes fences.
#[derive(Debug, Clone)]
pub struct FencePatch {
    pub title: Option<String>,
    pub color: Option<String>,
    pub content_color: Option<String>,
    pub collapsed: Option<bool>,
    pub locked: Option<bool>,
}

impl Default for FencePatch {
    fn default() -> (p: Self)
        ensures
            p.title is None && p.color is None && p.content_color is None && p.collapsed is None
                && p.locked is None,
    {
        FencePatch { title: None, color: None, content_color: None, collapsed: None, locked: None }
    }
}

/// What the control window sends to create a fence; `directory` is set for
/// a fence mapped onto an existing folder.
#[derive(Debug, Clone)]
pub struct NewFenceInput {
    pub title: String,
    pub color: String,
    pub content_color: String,
    pub directory: Option<String>,
}

pub open spec fn default_content_color_text() -> Seq<char> {
    "paper"@
}

/// The content colour of a fence whose settings name none.
pub fn default_content_color() -> (c: String)
    ensures
        c@ == default_content_color_text(),
{
    String::from_str("paper")
}

pub fn default_icon_size() -> (s: u32)
    ensures
        s == 46,
{
    46
}

pub open spec fn default_ghost_hotkey_text() -> Seq<char> {
    "Ctrl+Alt+G"@
}

pub fn default_ghost_hotkey() -> (h: String)
    ensures
        h@ == default_ghost_hotkey_text(),
{
    String::from_str("Ctrl+Alt+G")
}

pub fn default_true() -> (b: bool)
    ensures
        b,
{
    true
}

/// The version of the stored state's format.
pub fn state_version() -> (v: u32)
    ensures
        v == 6,
{
    6
}

/// The settings of a fence other than its geometry and folder.
#[derive(Debug, Clone)]
pub struct FenceAttributes {
    pub title: String,
    pub color: String,
    pub content_color: String,
    pub collapsed: bool,
    pub locked: bool,
}

pub open spec fn unnamed_title() -> Seq<char> {
    "未命名盒子"@
}

/// A title as stored: trimmed, at most 80 characters, a placeholder when empty.
pub open spec fn stored_title(title: Seq<char>) -> Seq<char> {
    let t = take_chars(trim(title), 80);
    if t.len() == 0 {
        unnamed_title()
    } else {
        t
    }
}

/// Normalises stored settings: the title as `stored_title`, the colour a
/// named or `#RRGGBB` colour (coral otherwise), the content colour the same
/// or a material (paper otherwise).
pub fn normalize_fence_attributes(attributes: FenceAttributes) -> (r: FenceAttributes)
    ensures
        r.title@ == stored_title(attributes.title@),
        r.color@ == normalized_color(attributes.color@, "coral"@, false),
        r.content_color@ == normalized_color(attributes.content_color@, "paper"@, true),
        r.collapsed == attributes.collapsed,
        r.locked == attributes.locked,
{
    let chars = chars_of(attributes.title.as_str());
    let trimmed = trim_chars(&chars);
    let limited = take_chars_exec(&trimmed, 80);
    let title = if limited.len() == 0 {
        String::from_str("未命名盒子")
    } else {
        string_from_chars(&limited)
    };
    FenceAttributes {
        title,
        color: normalize_color_value(attributes.color.as_str(), "coral", false),
        content_color: normalize_color_value(attributes.content_color.as_str(), "paper", true),
        collapsed: attributes.collapsed,
        locked: attributes.locked,
    }
}

/// Applies an edit to a fence's settings. A new title must not be empty
/// once trimmed; every other field of the patch replaces the old one, and
/// the result is normalised.
pub fn apply_fence_patch(attributes: FenceAttributes, patch: FencePatch) -> (r: Result<
    FenceAttributes,
    String,
>)
    ensures
        match patch.title {
            Some(t) => take_chars(trim(t@), 80).len() == 0 <==> r is Err,
            None => r is Ok,
        },
        r matches Err(e) ==> e@ == empty_title_error(),
        r matches Ok(a) ==> {
            &&& a.title@ == stored_title(
                match patch.title {
                    Some(t) => take_chars(trim(t@), 80),
                    None => attributes.title@,
                },
            )
            &&& a.color@ == normalized_color(
                match patch.color {
                    Some(c) => c@,
                    None => attributes.color@,
                },
                "coral"@,
                false,
            )
            &&& a.content_color@ == normalized_color(
                match patch.content_color {
                    Some(c) => c@,
                    None => attributes.content_color@,
                },
                "paper"@,
                true,
            )
            &&& a.collapsed == match patch.collapsed {
                Some(c) => c,
                None => attributes.collapsed,
            }
            &&& a.locked == match patch.locked {
                Some(l) => l,
                None => attributes.locked,
            }
        },
{
    let mut next = attributes;
    match patch.title {
        Some(title) => {
            match normalized_title(title.as_str()) {
                Ok(t) => {
                    next.title = t;
                },
                Err(e) => {
                    return Err(e);
                },
            }
        },
        None => {},
    }
    match patch.color {
        Some(c) => {
            next.color = c;
        },
        None => {},
    }
    match patch.content_color {
        Some(c) => {
            next.content_color = c;
        },
        None => {},
    }
    match patch.collapsed {
        Some(c) => {
            next.collapsed = c;
        },
        None => {},
    }
    match patch.locked {
        Some(l) => {
            next.locked = l;
        },
        None => {},
    }
    Ok(normalize_fence_attributes(next))
}

/// The ghost hotkey as stored: trimmed, at most 64 characters, the default
/// when empty.
pub fn normalized_ghost_hotkey(hotkey: &str) -> (r: String)
    ensures
        r@ == (if take_chars(trim(hotkey@), 64).len() == 0 {
            default_ghost_hotkey_text()
        } else {
            take_chars(trim(hotkey@), 64)
        }),
{
    let limited = take_chars_exec(&trim_chars(&chars_of(hotkey)), 64);
    if limited.len() == 0 {
        default_ghost_hotkey()
    } else {
        string_from_chars(&limited)
    }
}

/// The icon size as stored: between 36 and 64 pixels.
pub fn normalized_icon_size(icon_size: u32) -> (r: u32)
    ensures
        r == (if icon_size < 36 { 36 } else if icon_size > 64 { 64 } else { icon_size }),
{
    if icon_size < 36 {
        36
    } else if icon_size > 64 {
        64
    } else {
        icon_size
    }
}

/// A skipped update version as stored: trimmed, at most 64 characters, and
/// none when nothing is left.
pub fn normalized_ignored_version(version: Option<String>) -> (r: Option<String>)
    ensures
        match version {
            None => r is None,
            Some(v) => if take_chars(trim(v@), 64).len() == 0 {
                r is None
            } else {
                r matches Some(t) && t@ == take_chars(trim(v@), 64)
            },
        },
{
    match version {
        None => None,
        Some(v) => {
            let limited = take_chars_exec(&trim_chars(&chars_of(v.as_str())), 64);
            if limited.len() == 0 {
                None
            } else {
                Some(string_from_chars(&limited))
            }
        },
    }
}

/// A saved layout group's id as stored: trimmed, at most 128 characters;
/// none (the placement is dropped) when nothing is left.
pub fn normalized_group_id(group_id: &str) -> (r: Option<String>)
    ensures
        if take_chars(trim(group_id@), 128).len() == 0 {
            r is None
        } else {
            r matches Some(t) && t@ == take_chars(trim(group_id@), 128)
        },
{
    let limited = take_chars_exec(&trim_chars(&chars_of(group_id)), 128);
    if limited.len() == 0 {
        None
    } else {
        Some(string_from_chars(&limited))
    }
}

} // verus!
