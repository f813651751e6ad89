//! What the plugin runtime reads from a path: the file name, its extension
//! and the part of it that names a plugin.

use vstd::prelude::*;
use vstd::string::*;
use crate::term::chars_of;

verus! {

/// The final component of `path`, as `std::path::Path::file_name` gives it:
/// none where the path ends in `..` or has no component.
pub uninterp spec fn file_name(path: Seq<char>) -> Option<Seq<char>>;

/// `text` in lower case, as `str::to_lowercase` gives it.
pub uninterp spec fn lowercase(text: Seq<char>) -> Seq<char>;

/// The greatest index of `name` that holds a dot, or -1.
pub open spec fn last_dot(name: Seq<char>) -> int
    decreases name.len(),
{
    if name.len() == 0 {
        -1
    } else if name.last() == '.' {
        name.len() - 1
    } else {
        last_dot(name.drop_last())
    }
}

/// The extension of a file name: what follows its last dot, unless the name
/// has no dot or its only dot comes first.
pub open spec fn extension(name: Seq<char>) -> Option<Seq<char>> {
    if last_dot(name) <= 0 {
        None
    } else {
        Some(name.skip(last_dot(name) + 1))
    }
}

/// A file name without its extension: what comes before its last dot, or
/// all of it where it has no extension.
pub open spec fn stem(name: Seq<char>) -> Seq<char> {
    if last_dot(name) <= 0 {
        name
    } else {
        name.take(last_dot(name))
    }
}

/// The extension that a plugin module has, in lower case.
pub open spec fn module_extension() -> Seq<char> {
    seq!['w', 'a', 's', 'm']
}

/// Whether a file name is that of a plugin module: it has the module
/// extension, in any casing.
pub open spec fn is_module_name(name: Seq<char>) -> bool {
    match extension(name) {
        Some(found) => lowercase(found) == module_extension(),
        None => false,
    }
}

/// Whether `path` names a plugin module: it has a file name, and that is the
/// name of a module.
pub open spec fn is_module_path(path: Seq<char>) -> bool {
    match file_name(path) {
        Some(name) => is_module_name(name),
        None => false,
    }
}

/// The name a plugin goes by where none can be read from its path.
pub open spec fn unknown_name() -> Seq<char> {
    seq!['<', 'u', 'n', 'k', 'n', 'o', 'w', 'n', '>']
}

/// The name of the plugin loaded from `path`: its file name without the
/// extension.
pub open spec fn plugin_name(path: Seq<char>) -> Seq<char> {
    match file_name(path) {
        Some(name) => stem(name),
        None => unknown_name(),
    }
}

/// Calls `std::path::Path::file_name` on `path`. Trusted: what comes back is
/// the final component of the path, where it has one.
#[verifier::external_body]
fn file_name_of(path: &str) -> (name: Option<String>)
    ensures
        match name {
            Some(text) => file_name(path@) == Some(text@),
            None => file_name(path@).is_none(),
        },
{
    match std::path::Path::new(path).file_name() {
        Some(name) => Some(name.to_string_lossy().into_owned()),
        None => None,
    }
}

/// Calls `str::to_lowercase` on `text`. Trusted: what comes back is the text
/// in lower case.
#[verifier::external_body]
fn lowercase_of(text: &str) -> (lower: String)
    ensures
        lower@ == lowercase(text@),
{
    text.to_lowercase()
}

/// The index of the last dot of a name, or none where it has no dot.
fn find_last_dot(chars: &Vec<char>) -> (at: Option<usize>)
    ensures
        match at {
            Some(i) => i == last_dot(chars@) && i < chars@.len(),
            None => last_dot(chars@) == -1,
        },
{
    let mut n: usize = chars.len();
    proof {
        assert(chars@.take(n as int) == chars@);
    }
    while n > 0
        invariant
            n <= chars@.len(),
            last_dot(chars@) == last_dot(chars@.take(n as int)),
        decreases n,
    {
        proof {
            assert(chars@.take(n as int).drop_last() == chars@.take(n - 1));
            assert(chars@.take(n as int).last() == chars@[n - 1]);
        }
        if chars[n - 1] == '.' {
            return Some(n - 1);
        }
        n -= 1;
    }
    None
}

/// The extension of a file name: what follows its last dot, unless the name
/// has no dot or its only dot comes first.
pub fn extension_of<'a>(name: &'a str) -> (found: Option<&'a str>)
    ensures
        match found {
            Some(text) => extension(name@) == Some(text@),
            None => extension(name@).is_none(),
        },
{
    let chars = chars_of(name);
    let end: usize = chars.len();
    match find_last_dot(&chars) {
        Some(dot) => {
            if dot == 0 {
                None
            } else {
                proof {
                    assert(name@.skip(dot + 1) =~= name@.subrange(dot + 1, end as int));
                }
                Some(name.substring_char(dot + 1, end))
            }
        },
        None => None,
    }
}

/// A file name without its extension: what comes before its last dot, or
/// all of it where it has no extension.
pub fn stem_of<'a>(name: &'a str) -> (found: &'a str)
    ensures
        found@ == stem(name@),
{
    let chars = chars_of(name);
    match find_last_dot(&chars) {
        Some(dot) => {
            if dot == 0 {
                name
            } else {
                proof {
                    assert(name@.take(dot as int) =~= name@.subrange(0, dot as int));
                }
                name.substring_char(0, dot)
            }
        },
        None => name,
    }
}

/// Whether a text in lower case is the extension of a plugin module.
pub fn is_module_extension(lower: &str) -> (yes: bool)
    ensures
        yes == (lower@ == module_extension()),
{
    proof {
        reveal_strlit("wasm");
        assert("wasm"@ =~= module_extension());
    }
    let wanted = "wasm";
    crate::text::same_text(lower, wanted)
}

/// Whether a file name is that of a plugin module: it has the module
/// extension, in any casing.
pub fn is_module_file(name: &str) -> (yes: bool)
    ensures
        yes == is_module_name(name@),
{
    match extension_of(name) {
        Some(found) => {
            let lower = lowercase_of(found);
            is_module_extension(lower.as_str())
        },
        None => false,
    }
}

/// Whether `path` names a plugin module: its file name has the module
/// extension, in any casing.
pub fn is_module(path: &str) -> (yes: bool)
    ensures
        yes == is_module_path(path@),
{
    match file_name_of(path) {
        Some(name) => is_module_file(name.as_str()),
        None => false,
    }
}

/// The name of the plugin loaded from `path`: its file name without the
/// extension, or `<unknown>` where the path has no file name.
pub fn name_of(path: &str) -> (name: String)
    ensures
        name@ == plugin_name(path@),
{
    match file_name_of(path) {
        None => {
            proof {
                reveal_strlit("<unknown>");
                assert("<unknown>"@ =~= unknown_name());
            }
            String::from_str("<unknown>")
        },
        Some(file) => String::from_str(stem_of(file.as_str())),
    }
}

} // verus!
