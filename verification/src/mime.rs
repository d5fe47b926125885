//! Content types, inferred from a file name's extension.

use vstd::prelude::*;
use vstd::utf8::{decode_utf8, encode_utf8, is_char_boundary, pop_first_scalar, valid_utf8};

verus! {

/// The content type that is registered for an extension, if any.
pub uninterp spec fn registered_type(extension: Seq<char>) -> Option<Seq<char>>;

/// Looks `extension` up with `conduit_mime_types::get_mime_type`, which
/// reads a table that is fixed when the crate is built: the outcome depends
/// on the extension alone and is the named `registered_type`.
#[verifier::external_body]
fn lookup(extension: &str) -> (found: Option<String>)
    ensures
        found.deep_view() == registered_type(extension@),
{
    conduit_mime_types::get_mime_type(extension).map(|mime| mime.to_string())
}

/// The position of the last `.` before `end`, or `-1` where there is none.
pub open spec fn last_dot_before(name: Seq<u8>, end: int) -> int
    decreases end,
{
    if end <= 0 {
        -1
    } else if name[end - 1] == 0x2e {
        end - 1
    } else {
        last_dot_before(name, end - 1)
    }
}

/// The extension of a file name, both as bytes: what follows its last `.`.
/// A name without a `.`, one whose only `.` is its first byte, and the name
/// `..` have none.
pub open spec fn extension_of(name: Seq<u8>) -> Option<Seq<u8>> {
    let dot = last_dot_before(name, name.len() as int);
    if dot <= 0 || name =~= seq![0x2eu8, 0x2eu8] {
        None
    } else {
        Some(name.skip(dot + 1))
    }
}

/// The content type of a file with this name: the one registered for its
/// extension, and none where it has no extension or none is registered.
pub open spec fn content_type_of(name: Seq<char>) -> Option<Seq<char>> {
    match extension_of(encode_utf8(name)) {
        Some(extension) => registered_type(decode_utf8(extension)),
        None => None,
    }
}

/// A character starts behind every byte below 0x80 of a text in UTF-8.
proof fn lemma_boundary_behind_ascii(bytes: Seq<u8>, at: int)
    requires
        valid_utf8(bytes),
        0 <= at < bytes.len(),
        bytes[at] < 0x80,
    ensures
        is_char_boundary(bytes, at + 1),
    decreases bytes.len(),
{
    reveal_with_fuel(valid_utf8, 2);
    reveal_with_fuel(is_char_boundary, 2);
    if at > 0 {
        vstd::utf8::is_char_boundary_iff_not_is_continuation_byte(bytes, at);
        let rest = pop_first_scalar(bytes);
        let width = bytes.len() - rest.len();
        lemma_boundary_behind_ascii(rest, at - width);
    }
}

/// The extension of a file name.
pub fn extension(name: &str) -> (ext: Option<&str>)
    ensures
        match ext {
            Some(text) => extension_of(encode_utf8(name@)) == Some(encode_utf8(text@)),
            None => extension_of(encode_utf8(name@)) is None,
        },
{
    let bytes = name.as_bytes();
    let mut end: usize = bytes.len();
    while end > 0 && bytes[end - 1] != 0x2e
        invariant
            end <= bytes.len(),
            last_dot_before(bytes@, bytes.len() as int) == last_dot_before(bytes@, end as int),
        decreases end,
    {
        end = end - 1;
    }
    if end <= 1 || (bytes.len() == 2 && bytes[0] == 0x2e) {
        None
    } else {
        proof {
            vstd::utf8::encode_utf8_valid_utf8(name@);
            lemma_boundary_behind_ascii(bytes@, end - 1);
        }
        let (_, text) = name.split_at(end);
        Some(text)
    }
}

/// Infers the content type of a file from its name.
pub fn content_type(name: &str) -> (mime: Option<String>)
    ensures
        mime.deep_view() == content_type_of(name@),
{
    match extension(name) {
        Some(text) => {
            proof {
                vstd::utf8::encode_utf8_decode_utf8(text@);
            }
            lookup(text)
        },
        None => None,
    }
}

} // verus!
