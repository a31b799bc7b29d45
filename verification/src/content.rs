//! What kind of content a buffer holds, and turning file content into checkable text.

use vstd::prelude::*;

verus! {

/// The encoding a buffer was taken for, or binary data.
#[derive(Debug, Clone, Copy, PartialEq, Eq, Structural)]
pub enum ContentType {
    Binary,
    Utf8,
    Utf8Bom,
    Utf16Le,
    Utf16Be,
    Utf32Le,
    Utf32Be,
}

pub open spec fn starts_with(b: Seq<u8>, prefix: Seq<u8>) -> bool {
    prefix.len() <= b.len() && b.take(prefix.len() as int) == prefix
}

/// A zero byte among the first 1024.
pub open spec fn has_early_zero(b: Seq<u8>) -> bool {
    exists|i: int| 0 <= i < b.len() && i < 1024 && b[i] == 0
}

/// What `content_inspector::inspect` reports: a byte order mark decides; otherwise a zero
/// byte among the first 1024, or a PDF or PNG signature, means binary; anything else
/// (the empty buffer too) is UTF-8.
pub open spec fn spec_inspect(b: Seq<u8>) -> ContentType {
    if starts_with(b, seq![0xEFu8, 0xBBu8, 0xBFu8]) {
        ContentType::Utf8Bom
    } else if starts_with(b, seq![0x00u8, 0x00u8, 0xFEu8, 0xFFu8]) {
        ContentType::Utf32Be
    } else if starts_with(b, seq![0xFFu8, 0xFEu8, 0x00u8, 0x00u8]) {
        ContentType::Utf32Le
    } else if starts_with(b, seq![0xFEu8, 0xFFu8]) {
        ContentType::Utf16Be
    } else if starts_with(b, seq![0xFFu8, 0xFEu8]) {
        ContentType::Utf16Le
    } else if has_early_zero(b) {
        ContentType::Binary
    } else if starts_with(b, seq![0x25u8, 0x50u8, 0x44u8, 0x46u8]) || starts_with(
        b,
        seq![0x89u8, 0x50u8, 0x4Eu8, 0x47u8],
    ) {
        ContentType::Binary
    } else {
        ContentType::Utf8
    }
}

impl ContentType {
    pub fn is_binary(self) -> (r: bool)
        ensures
            r == (self == ContentType::Binary),
    {
        match self {
            ContentType::Binary => true,
            _ => false,
        }
    }
}

/// `content_inspector::inspect`: the guess of the content type, by byte order marks, zero
/// bytes near the start and two file signatures, as `spec_inspect` states it.
#[verifier::external_body]
pub(crate) fn inspect(buffer: &[u8]) -> (r: ContentType)
    ensures
        r == spec_inspect(buffer@),
{
    match content_inspector::inspect(buffer) {
        content_inspector::ContentType::BINARY => ContentType::Binary,
        content_inspector::ContentType::UTF_8 => ContentType::Utf8,
        content_inspector::ContentType::UTF_8_BOM => ContentType::Utf8Bom,
        content_inspector::ContentType::UTF_16LE => ContentType::Utf16Le,
        content_inspector::ContentType::UTF_16BE => ContentType::Utf16Be,
        content_inspector::ContentType::UTF_32LE => ContentType::Utf32Le,
        content_inspector::ContentType::UTF_32BE => ContentType::Utf32Be,
    }
}

/// Only UTF-8 is checked: any other content counts as binary.
pub open spec fn spec_utf8_or_binary(t: ContentType) -> ContentType {
    if t == ContentType::Utf8Bom || t == ContentType::Utf8 {
        t
    } else {
        ContentType::Binary
    }
}

/// The content type of a buffer, where everything but UTF-8 counts as binary.
pub fn massage_data(buffer: Vec<u8>) -> (r: (Vec<u8>, ContentType))
    ensures
        r.0@ == buffer@,
        r.1 == spec_utf8_or_binary(spec_inspect(buffer@)),
{
    let content_type = inspect(buffer.as_slice());
    let content_type = match content_type {
        ContentType::Utf8Bom => ContentType::Utf8Bom,
        ContentType::Utf8 => ContentType::Utf8,
        _ => ContentType::Binary,
    };
    (buffer, content_type)
}

} // verus!
