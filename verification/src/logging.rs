//! The rotating log file: when the current file is full, which numbered
//! files move where, and the names of the numbered files.

use vstd::prelude::*;
use crate::paths::{last_dot, lemma_last_dot_range, name_extension, name_stem, path_extension, path_with_extension, plain_file_name};
use crate::text::{chars_of, contains_char, decimal_chars, decimal_digits, is_digit, lemma_decimal_digits_are_digits, string_from_chars};

verus! {

pub const MAX_LOG_BYTES: u64 = 5 * 1024 * 1024;

pub const MAX_CRASH_BYTES: u64 = 2 * 1024 * 1024;

pub const RETAINED_LOGS: usize = 5;

/// Whether writing `line_len` more bytes to a file holding `bytes_written`
/// bytes would pass the limit, so the file is rotated first.
pub fn should_rotate(bytes_written: u64, line_len: u64) -> (r: bool)
    ensures
        r == (if bytes_written + line_len > u64::MAX {
            u64::MAX as int
        } else {
            bytes_written + line_len
        } > MAX_LOG_BYTES),
{
    bytes_written.saturating_add(line_len) > MAX_LOG_BYTES
}

/// The bytes written after a line: saturating at the largest count.
pub fn bytes_after(bytes_written: u64, line_len: u64) -> (r: u64)
    ensures
        r == (if bytes_written + line_len > u64::MAX {
            u64::MAX as int
        } else {
            bytes_written + line_len
        }),
{
    bytes_written.saturating_add(line_len)
}

/// The renames of a rotation that keeps `retained` files, in order: file
/// `retained - 1` becomes file `retained`, and so on down to file 1 becoming
/// file 2 (each first replacing what is there). The current file then
/// becomes file 1.
pub fn rotation_renames(retained: usize) -> (renames: Vec<(usize, usize)>)
    ensures
        renames@.len() == (if retained == 0 { 0 } else { retained - 1 }),
        forall|k: int|
            0 <= k < renames@.len() ==> #[trigger] renames@[k] == ((retained - 1 - k) as usize, (
            retained - k) as usize),
{
    let mut renames: Vec<(usize, usize)> = Vec::new();
    if retained == 0 {
        return renames;
    }
    let mut index = retained - 1;
    while index >= 1
        invariant
            retained >= 1,
            index <= retained - 1,
            renames@.len() == retained - 1 - index,
            forall|k: int|
                0 <= k < renames@.len() ==> #[trigger] renames@[k] == ((retained - 1 - k) as usize, (
                retained - k) as usize),
        decreases index,
    {
        renames.push((index, index + 1));
        index = index - 1;
    }
    renames
}

/// The extension a numbered file gets: the log's own extension (`log` when
/// it has none), a full stop and the number.
pub open spec fn rotated_extension_text(extension: Option<Seq<char>>, index: nat) -> Seq<char> {
    let base = match extension {
        Some(e) => e,
        None => "log"@,
    };
    base + "."@ + decimal_digits(index)
}

pub fn rotated_extension(extension: Option<String>, index: usize) -> (r: String)
    ensures
        r@ == rotated_extension_text(
            match extension {
                Some(e) => Some(e@),
                None => None,
            },
            index as nat,
        ),
{
    let mut r = match extension {
        Some(e) => e,
        None => String::from_str("log"),
    };
    r.append(".");
    let digits = string_from_chars(&decimal_chars(index as u64));
    r.append(digits.as_str());
    r
}

/// The path of the `index`-th older log: the extension stays visible, as in
/// `dcreel.log.1`. The extension is read and replaced by the platform's path
/// rules; the new extension is `rotated_extension` of the old one. An
/// extension holding a backslash (possible only where a backslash is no path
/// separator) cannot be handed to std's `set_extension`; the number is then
/// appended to the path itself.
pub fn rotated_path(path: &str, index: usize) -> (r: String)
    ensures
        plain_file_name(path@) ==> r@ == name_stem(path@) + "."@ + rotated_extension_text(
            name_extension(path@),
            index as nat,
        ),
{
    let extension = path_extension(path);
    let ghost old_extension = match &extension {
        Some(e) => Some(e@),
        None => None,
    };
    let new_extension = rotated_extension(extension, index);
    let new_chars = chars_of(new_extension.as_str());
    proof {
        reveal_strlit("log");
        reveal_strlit(".");
        lemma_decimal_digits_are_digits(index as nat);
        let n = new_extension@;
        let base = match old_extension {
            Some(e) => e,
            None => "log"@,
        };
        let digits = decimal_digits(index as nat);
        assert(n == base + "."@ + digits);
        assert forall|i: int| 0 <= i < n.len() implies n[i] != '/' by {
            if i > base.len() {
                assert(n[i] == digits[i - base.len() - 1]);
                assert(is_digit(digits[i - base.len() - 1]));
            } else if i < base.len() {
                assert(n[i] == base[i]);
            }
        }
        if plain_file_name(path@) {
            lemma_last_dot_range(path@, path@.len() as int);
            assert forall|i: int| 0 <= i < n.len() implies n[i] != '\\' by {
                if i < base.len() {
                    if name_extension(path@) is Some {
                        let d = last_dot(path@, path@.len() as int);
                        assert(base[i] == path@[d + 1 + i]);
                    }
                } else if i > base.len() {
                    assert(n[i] == digits[i - base.len() - 1]);
                    assert(is_digit(digits[i - base.len() - 1]));
                }
            }
            assert(!n.contains('\\'));
        }
    }
    if contains_char(&new_chars, '\\') {
        let mut r = String::from_str(path);
        r.append(".");
        let digits = string_from_chars(&decimal_chars(index as u64));
        r.append(digits.as_str());
        return r;
    }
    path_with_extension(path, new_extension.as_str())
}

/// Flushes the installed logger (`log::logger().flush()`); nothing is
/// claimed of what the logger does.
#[verifier::external_body]
pub fn flush() {
    log::logger().flush();
}

} // verus!
