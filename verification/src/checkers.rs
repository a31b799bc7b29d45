//! Checking files: reading their content, and what each kind of check reports and does
//! for one file.

use vstd::prelude::*;
use vstd::slice::slice_to_vec;
use vstd::string::{StringExecFns, StringSliceAdditionalSpecFns};
use vstd::utf8::{decode_utf8, encode_utf8, valid_utf8};

use crate::checks::content_view;
use crate::check::{check_bytes, check_str, spec_check_bytes, spec_check_text, typos_view, Typo, TypoView};
use crate::content::{inspect, spec_inspect, ContentType};
use crate::decimal::{decimal, to_decimal};
use crate::dict::Dictionary;
use crate::file::{
    apply_fixes, count_newlines, extract_line, fix_buffer, fixes_fit, fixes_fit_in, is_fixable,
    lemma_fixes_fit, lemma_line_bounds, lemma_rfind_newline, line_end, line_start, patterns_view, spec_fixable,
    spec_ignore_blocks, spec_ignored_at, AccumulateLineNum, Ignores,
};
use crate::pattern::Pattern;
use crate::report::{
    opt_context_view, opt_string_view, BinaryFile, Context, ContextView, Error, File, FileContext, FileType,
    Message, MessageView, Parse, ParseKind, PathContext, Typo as TypoMessage, TypoMessageView,
};
use crate::parser::{idents_view, split_all, words_from, words_view};
use crate::tokens::{
    byte_len, chars_of, lemma_byte_len_is_encoding_len, spec_parse_bytes, spec_parse_text,
    Identifier, TokenView, Tokenizer, Word,
};
use crate::checks::clone_context_opt;

verus! {

// ---------------------------------------------------------------------------------------
// What a check does
// ---------------------------------------------------------------------------------------

/// One step of checking a file: report a message, write the file, rename it, or show how
/// fixing it would change it.
#[derive(Debug, PartialEq, Eq)]
pub enum Action {
    Report(Message),
    /// Write the buffer to the file (to standard output for `-`).
    Write(Vec<u8>),
    /// Give the file this name, in its directory.
    Rename(Vec<u8>),
    /// Show the difference between the content and its fixed version, and the new file
    /// name if there is one.
    Diff { original: Vec<u8>, fixed: Vec<u8>, new_name: Option<Vec<u8>> },
}

pub enum ActionView {
    Report(MessageView),
    Write(Seq<u8>),
    Rename(Seq<u8>),
    Diff(Seq<u8>, Seq<u8>, Option<Seq<u8>>),
}

pub open spec fn opt_bytes_view(b: Option<Vec<u8>>) -> Option<Seq<u8>> {
    match b {
        Some(b) => Some(b@),
        None => None,
    }
}

impl View for Action {
    type V = ActionView;

    open spec fn view(&self) -> ActionView {
        match self {
            Action::Report(m) => ActionView::Report(m@),
            Action::Write(b) => ActionView::Write(b@),
            Action::Rename(b) => ActionView::Rename(b@),
            Action::Diff { original, fixed, new_name } => ActionView::Diff(
                original@,
                fixed@,
                opt_bytes_view(*new_name),
            ),
        }
    }
}

pub open spec fn actions_view(v: Seq<Action>) -> Seq<ActionView> {
    v.map_values(|a: Action| a@)
}

/// An error message about the file at `path`.
pub open spec fn path_error(path: Seq<char>, msg: Seq<char>) -> ActionView {
    ActionView::Report(MessageView::Error(Some(ContextView::Path(path)), msg))
}

fn path_error_action(path: &str, msg: String) -> (r: Action)
    ensures
        r@ == path_error(path@, msg@),
{
    Action::Report(
        Message::Error(Error { context: Some(Context::Path(PathContext { path: path.to_owned() })), msg }),
    )
}

// ---------------------------------------------------------------------------------------
// Reading
// ---------------------------------------------------------------------------------------

/// The code unit at `i` of UTF-16 bytes in the given byte order.
pub open spec fn utf16_unit(b: Seq<u8>, i: int, big_endian: bool) -> int {
    if big_endian {
        b[2 * i] * 256 + b[2 * i + 1]
    } else {
        b[2 * i + 1] * 256 + b[2 * i]
    }
}

/// The code units of UTF-16 bytes.
pub open spec fn utf16_units(b: Seq<u8>, big_endian: bool) -> Seq<int> {
    Seq::new(b.len() / 2, |i: int| utf16_unit(b, i, big_endian))
}

/// The characters that UTF-16 code units stand for: a unit outside the surrogates is its
/// own character, a high surrogate followed by a low one is a pair; anything else
/// (a lone surrogate) is malformed.
pub open spec fn utf16_chars(u: Seq<int>) -> Option<Seq<char>>
    decreases u.len(),
{
    if u.len() == 0 {
        Some(seq![])
    } else if u[0] < 0xD800 || u[0] > 0xDFFF {
        match utf16_chars(u.drop_first()) {
            Some(rest) => Some(seq![u[0] as char] + rest),
            None => None,
        }
    } else if u[0] <= 0xDBFF && u.len() >= 2 && 0xDC00 <= u[1] <= 0xDFFF {
        match utf16_chars(u.subrange(2, u.len() as int)) {
            Some(rest) => Some(seq![(0x10000 + (u[0] - 0xD800) * 0x400 + (u[1] - 0xDC00)) as char] + rest),
            None => None,
        }
    } else {
        None
    }
}

/// Whether the bytes start with the byte order mark of the given byte order.
pub open spec fn utf16_bom(b: Seq<u8>, big_endian: bool) -> bool {
    b.len() >= 2 && if big_endian {
        b[0] == 0xFE && b[1] == 0xFF
    } else {
        b[0] == 0xFF && b[1] == 0xFE
    }
}

/// The text of UTF-16 bytes in the given byte order, a leading byte order mark of that
/// order removed; `None` when they are malformed (an odd number of bytes, or a lone
/// surrogate).
pub open spec fn utf16_decode(b: Seq<u8>, big_endian: bool) -> Option<Seq<char>> {
    let body = if utf16_bom(b, big_endian) {
        b.subrange(2, b.len() as int)
    } else {
        b
    };
    if body.len() % 2 != 0 {
        None
    } else {
        utf16_chars(utf16_units(body, big_endian))
    }
}

/// The output room that encoding_rs documents as enough to decode `len` bytes of UTF-16
/// with a fresh decoder (`Decoder::max_utf8_buffer_length_without_replacement`).
pub open spec fn utf16_capacity(len: int) -> int {
    1 + 3 * ((len + 1) / 2)
}

/// `encoding_rs::UTF_16LE` decoding without replacement, a leading byte order mark removed,
/// into a string made with at least the given capacity: the text when the whole input was
/// decoded (then it is the input's UTF-16LE text), else how many bytes were read, at most
/// all of them (malformed input, or no room left).  With the room that encoding_rs
/// documents as enough, the output never runs out, so the text comes exactly for
/// well-formed input.  Where an error stops is not stated beyond that bound.
#[verifier::external_body]
fn decode_utf16le(buffer: &[u8], capacity: usize) -> (r: Result<String, usize>)
    requires
        capacity <= isize::MAX,
    ensures
        r matches Ok(t) ==> utf16_decode(buffer@, false) == Some(t@),
        r matches Err(n) ==> n <= buffer.len(),
        capacity >= utf16_capacity(buffer.len() as int) ==> (r is Ok <==> utf16_decode(buffer@, false) is Some),
{
    let mut decoded = String::with_capacity(capacity);
    let (r, read) = encoding_rs::UTF_16LE.new_decoder_with_bom_removal().decode_to_string_without_replacement(
        buffer,
        &mut decoded,
        true,
    );
    match r {
        encoding_rs::DecoderResult::InputEmpty => Ok(decoded),
        encoding_rs::DecoderResult::OutputFull => Err(read),
        encoding_rs::DecoderResult::Malformed(_, _) => Err(read),
    }
}

/// The same as `decode_utf16le`, with `encoding_rs::UTF_16BE`: a text is the input's
/// UTF-16BE text.
#[verifier::external_body]
fn decode_utf16be(buffer: &[u8], capacity: usize) -> (r: Result<String, usize>)
    requires
        capacity <= isize::MAX,
    ensures
        r matches Ok(t) ==> utf16_decode(buffer@, true) == Some(t@),
        r matches Err(n) ==> n <= buffer.len(),
        capacity >= utf16_capacity(buffer.len() as int) ==> (r is Ok <==> utf16_decode(buffer@, true) is Some),
{
    let mut decoded = String::with_capacity(capacity);
    let (r, read) = encoding_rs::UTF_16BE.new_decoder_with_bom_removal().decode_to_string_without_replacement(
        buffer,
        &mut decoded,
        true,
    );
    match r {
        encoding_rs::DecoderResult::InputEmpty => Ok(decoded),
        encoding_rs::DecoderResult::OutputFull => Err(read),
        encoding_rs::DecoderResult::Malformed(_, _) => Err(read),
    }
}

pub open spec fn is_utf16(t: ContentType) -> bool {
    t == ContentType::Utf16Le || t == ContentType::Utf16Be
}

pub open spec fn is_utf32(t: ContentType) -> bool {
    t == ContentType::Utf32Le || t == ContentType::Utf32Be
}

/// The message for UTF-16 content that did not decode.
pub open spec fn decode_error_text(path: Seq<char>, big_endian: bool, read: nat) -> Seq<char> {
    "invalid "@ + (if big_endian {
        "UTF-16BE"@
    } else {
        "UTF-16LE"@
    }) + " encoding at byte "@ + decimal(read) + " in "@ + path
}

/// The report of a failed read.
pub open spec fn read_errors(path: Seq<char>, content: Result<Seq<u8>, Seq<char>>) -> Seq<ActionView> {
    match content {
        Ok(_) => seq![],
        Err(e) => seq![path_error(path, e)],
    }
}

/// What was read: nothing when the read failed.
pub open spec fn read_bytes(content: Result<Seq<u8>, Seq<char>>) -> Seq<u8> {
    match content {
        Ok(b) => b,
        Err(_) => seq![],
    }
}

/// What reading gives for a file at `path` whose read gave `content` (an error's text on
/// failure, then the content is empty), when UTF-16 content decodes as `decoded`: the
/// error reports, the text to check as UTF-8, and its content type.  UTF-32 counts as
/// binary.
pub open spec fn spec_read_file(
    path: Seq<char>,
    content: Result<Seq<u8>, Seq<char>>,
    decoded: Result<Seq<char>, usize>,
) -> (Seq<ActionView>, Seq<u8>, ContentType) {
    let errors = read_errors(path, content);
    let buf = read_bytes(content);
    let t = spec_inspect(buf);
    if t == ContentType::Binary || is_utf32(t) {
        (errors, buf, ContentType::Binary)
    } else if !is_utf16(t) {
        (errors, buf, t)
    } else {
        match decoded {
            Ok(text) => (errors, vstd::utf8::encode_utf8(text), t),
            Err(read) => (
                errors + seq![path_error(path, decode_error_text(path, t == ContentType::Utf16Be, read as nat))],
                seq![],
                t,
            ),
        }
    }
}

/// What decoding UTF-16 content gives: its text, in the byte order that the content was
/// found to have, exactly when it is well formed (when the room to decode it fits in
/// memory), else the number of bytes read before decoding stopped.
pub open spec fn utf16_outcome(buf: Seq<u8>, decoded: Result<Seq<char>, usize>) -> bool {
    let text = utf16_decode(buf, spec_inspect(buf) == ContentType::Utf16Be);
    is_utf16(spec_inspect(buf)) ==> match decoded {
        Ok(t) => text == Some(t),
        Err(read) => read <= buf.len() && (utf16_capacity(buf.len() as int) <= isize::MAX ==> text is None),
    }
}

/// The content of a file, ready to check.
pub struct ReadFile {
    actions: Vec<Action>,
    buffer: Vec<u8>,
    content_type: ContentType,
}

impl ReadFile {
    /// UTF-32 never reaches a check: it counts as binary.
    #[verifier::type_invariant]
    spec fn no_utf32(&self) -> bool {
        !is_utf32(self.content_type)
    }

    pub closed spec fn spec_actions(&self) -> Seq<ActionView> {
        actions_view(self.actions@)
    }

    pub closed spec fn spec_buffer(&self) -> Seq<u8> {
        self.buffer@
    }

    pub closed spec fn spec_content_type(&self) -> ContentType {
        self.content_type
    }

    pub fn buffer(&self) -> (r: &[u8])
        ensures
            r@ == self.spec_buffer(),
    {
        self.buffer.as_slice()
    }

    pub fn content_type(&self) -> (r: ContentType)
        ensures
            r == self.spec_content_type(),
            !is_utf32(r),
    {
        proof {
            use_type_invariant(self);
        }
        self.content_type
    }

    /// The error reports of the read, then the buffer and content type.
    pub fn into_parts(self) -> (r: (Vec<Action>, Vec<u8>, ContentType))
        ensures
            actions_view(r.0@) == self.spec_actions(),
            r.1@ == self.spec_buffer(),
            r.2 == self.spec_content_type(),
            !is_utf32(r.2),
    {
        proof {
            use_type_invariant(&self);
        }
        (self.actions, self.buffer, self.content_type)
    }
}

fn decode_error_message(path: &str, big_endian: bool, read: usize) -> (r: String)
    ensures
        r@ == decode_error_text(path@, big_endian, read as nat),
{
    let mut r = String::from_str("invalid ");
    if big_endian {
        r.append("UTF-16BE");
    } else {
        r.append("UTF-16LE");
    }
    r.append(" encoding at byte ");
    let n = to_decimal(read);
    r.append(n.as_str());
    r.append(" in ");
    r.append(path);
    r
}

/// Turn what reading the file at `path` gave into text to check: UTF-8 as it is, UTF-16
/// decoded, anything else binary.  Read errors and undecodable UTF-16 are reported, and
/// leave an empty buffer.
pub fn read_file(path: &str, content: Result<Vec<u8>, String>) -> (r: ReadFile)
    ensures
        exists|decoded: Result<Seq<char>, usize>|
            utf16_outcome(read_bytes(content_view(content)), decoded) && (r.spec_actions(), r.spec_buffer(), r.spec_content_type()) == spec_read_file(
                path@,
                content_view(content),
                decoded,
            ),
{
    let ghost cv = content_view(content);
    let mut actions: Vec<Action> = Vec::new();
    let buffer = match content {
        Ok(b) => b,
        Err(e) => {
            actions.push(path_error_action(path, e));
            Vec::new()
        },
    };
    let ghost errors = actions_view(actions@);
    assert(errors =~= read_errors(path@, cv));
    assert(buffer@ == read_bytes(cv));
    let t = inspect(buffer.as_slice());
    match t {
        ContentType::Binary | ContentType::Utf32Le | ContentType::Utf32Be => {
            let r = ReadFile { actions, buffer, content_type: ContentType::Binary };
            assert(utf16_outcome(read_bytes(cv), Err(0)));
            assert((r.spec_actions(), r.spec_buffer(), r.spec_content_type()) == spec_read_file(path@, cv, Err(0)));
            r
        },
        ContentType::Utf8 | ContentType::Utf8Bom => {
            let r = ReadFile { actions, buffer, content_type: t };
            assert(utf16_outcome(read_bytes(cv), Err(0)));
            assert((r.spec_actions(), r.spec_buffer(), r.spec_content_type()) == spec_read_file(path@, cv, Err(0)));
            r
        },
        ContentType::Utf16Le | ContentType::Utf16Be => {
            let big_endian = match t {
                ContentType::Utf16Be => true,
                _ => false,
            };
            let len = buffer.len();
            let half = len / 2 + len % 2;
            let capacity = if half <= (isize::MAX as usize - 1) / 3 {
                3 * half + 1
            } else {
                isize::MAX as usize
            };
            assert(utf16_capacity(len as int) <= isize::MAX ==> capacity >= utf16_capacity(len as int));
            let decoded = if big_endian {
                decode_utf16be(buffer.as_slice(), capacity)
            } else {
                decode_utf16le(buffer.as_slice(), capacity)
            };
            match decoded {
                Ok(text) => {
                    let bytes = slice_to_vec(text.as_str().as_bytes());
                    let r = ReadFile { actions, buffer: bytes, content_type: t };
                    assert(utf16_outcome(read_bytes(cv), Ok(text@)));
                    assert((r.spec_actions(), r.spec_buffer(), r.spec_content_type()) == spec_read_file(path@, cv, Ok(text@)));
                    r
                },
                Err(read) => {
                    let msg = decode_error_message(path, big_endian, read);
                    actions.push(path_error_action(path, msg));
                    assert(actions_view(actions@) =~= errors + seq![path_error(path@, msg@)]);
                    let r = ReadFile { actions, buffer: Vec::new(), content_type: t };
                    assert(utf16_outcome(read_bytes(cv), Err(read)));
                    assert((r.spec_actions(), r.spec_buffer(), r.spec_content_type()) == spec_read_file(path@, cv, Err(read)));
                    r
                },
            }
        },
    }
}

// ---------------------------------------------------------------------------------------
// Writing
// ---------------------------------------------------------------------------------------

/// The text of the error for bytes that are not UTF-8, as std shows it.
pub uninterp spec fn utf8_error_text(bytes: Seq<u8>) -> Seq<char>;

/// `String::from_utf8`: the string when the bytes are UTF-8, else the error's text (named
/// `utf8_error_text` of the bytes).
#[verifier::external_body]
fn string_from_utf8(bytes: Vec<u8>) -> (r: Result<String, String>)
    ensures
        r is Ok <==> valid_utf8(bytes@),
        r matches Ok(s) ==> s@ == decode_utf8(bytes@),
        r matches Err(e) ==> e@ == utf8_error_text(bytes@),
{
    String::from_utf8(bytes).map_err(|e| e.to_string())
}

/// `encoding_rs::UTF_16LE.encode`: per the Encoding Standard, UTF-16 encodes to UTF-8, so
/// the bytes are the string's UTF-8 bytes.
#[verifier::external_body]
fn encode_utf16le(s: &str) -> (r: Vec<u8>)
    ensures
        r@ == s.spec_bytes(),
{
    encoding_rs::UTF_16LE.encode(s).0.into_owned()
}

/// The same as `encode_utf16le`, with `encoding_rs::UTF_16BE`.
#[verifier::external_body]
fn encode_utf16be(s: &str) -> (r: Vec<u8>)
    ensures
        r@ == s.spec_bytes(),
{
    encoding_rs::UTF_16BE.encode(s).0.into_owned()
}

/// What writing `buf` back to a file of the given content type does: UTF-16 files get
/// the text back (their encoder writes UTF-8), unless it is not UTF-8 (reported) or empty.
pub open spec fn spec_write_actions(path: Seq<char>, t: ContentType, buf: Seq<u8>) -> Seq<ActionView> {
    if is_utf16(t) {
        if !valid_utf8(buf) {
            seq![path_error(path, utf8_error_text(buf))]
        } else if buf.len() == 0 {
            seq![]
        } else {
            seq![ActionView::Write(buf)]
        }
    } else {
        seq![ActionView::Write(buf)]
    }
}

/// The steps that write `buffer` back to the file at `path`.
pub fn write_actions(path: &str, t: ContentType, buffer: Vec<u8>) -> (r: Vec<Action>)
    requires
        !is_utf32(t),
    ensures
        actions_view(r@) == spec_write_actions(path@, t, buffer@),
{
    let mut r: Vec<Action> = Vec::new();
    match t {
        ContentType::Utf16Le | ContentType::Utf16Be => {
            let ghost b = buffer@;
            match string_from_utf8(buffer) {
                Ok(s) => {
                    proof {
                        vstd::utf8::decode_utf8_encode_utf8(b);
                    }
                    if s.as_str().as_bytes().len() == 0 {
                        assert(r@.len() == 0);
                    } else {
                        let encoded = match t {
                            ContentType::Utf16Be => encode_utf16be(s.as_str()),
                            _ => encode_utf16le(s.as_str()),
                        };
                        r.push(Action::Write(encoded));
                        assert(actions_view(r@) =~= seq![ActionView::Write(b)]);
                    }
                },
                Err(e) => {
                    r.push(path_error_action(path, e));
                    assert(actions_view(r@) =~= seq![path_error(path@, utf8_error_text(b))]);
                },
            }
        },
        _ => {
            let ghost b = buffer@;
            r.push(Action::Write(buffer));
            assert(actions_view(r@) =~= seq![ActionView::Write(b)]);
        },
    }
    r
}

// ---------------------------------------------------------------------------------------
// Checking
// ---------------------------------------------------------------------------------------

/// What a file is checked with.
pub struct Policy<'p, D> {
    pub check_filenames: bool,
    pub check_files: bool,
    pub binary: bool,
    pub tokenizer: &'p Tokenizer,
    pub dict: &'p D,
    /// Patterns whose matches in a file are not checked.
    pub ignore: &'p [Pattern],
    pub file_type: Option<&'p str>,
}

/// What reading gave, or nothing read: no reports, an empty UTF-8 buffer.
pub open spec fn read_view(read: Option<ReadFile>) -> (Seq<ActionView>, Seq<u8>, ContentType) {
    match read {
        Some(r) => (r.spec_actions(), r.spec_buffer(), r.spec_content_type()),
        None => (seq![], seq![], ContentType::Utf8),
    }
}

fn read_parts(read: Option<ReadFile>) -> (r: (Vec<Action>, Vec<u8>, ContentType))
    ensures
        (actions_view(r.0@), r.1@, r.2) == read_view(read),
        !is_utf32(r.2),
{
    match read {
        Some(r) => r.into_parts(),
        None => (Vec::new(), Vec::new(), ContentType::Utf8),
    }
}

/// The report of a typo in the file name `name` of `path`.
pub open spec fn name_typo(path: Seq<char>, name: Seq<char>, t: TypoView) -> ActionView {
    ActionView::Report(
        MessageView::Typo(
            TypoMessageView {
                context: Some(ContextView::Path(path)),
                buffer: encode_utf8(name),
                byte_offset: t.0,
                typo: t.1,
                corrections: t.2,
            },
        ),
    )
}

/// The report of a typo in a file: its 1-indexed line, the line, and its offset there.
pub open spec fn line_typo(path: Seq<char>, buf: Seq<u8>, t: TypoView) -> ActionView {
    let start = line_start(buf, t.0);
    ActionView::Report(
        MessageView::Typo(
            TypoMessageView {
                context: Some(ContextView::File(path, (1 + count_newlines(buf.take(t.0))) as int)),
                buffer: buf.subrange(start, line_end(buf, start)),
                byte_offset: t.0 - start,
                typo: t.1,
                corrections: t.2,
            },
        ),
    )
}

/// Where a typo is reported in a file: on line 1 + the number of `\n` before it, with the
/// line that holds it (from just after the previous `\n` to the next line break, with no
/// `\n` inside) and its offset in that line.
pub proof fn lemma_line_typo_location(path: Seq<char>, buf: Seq<u8>, t: TypoView)
    requires
        locatable(buf, t),
    ensures
        line_typo(path, buf, t) matches ActionView::Report(MessageView::Typo(msg)) && {
            let st = t.0 - msg.byte_offset;
            &&& msg.context == Some(ContextView::File(path, (1 + count_newlines(buf.take(t.0))) as int))
            &&& msg.typo == t.1
            &&& msg.corrections == t.2
            &&& 0 <= st <= t.0
            &&& (st == 0 || buf[st - 1] == 10)
            &&& (forall|k: int| st <= k < t.0 ==> #[trigger] buf[k] != 10)
            &&& st + msg.buffer.len() <= buf.len()
            &&& msg.buffer == buf.subrange(st, st + msg.buffer.len())
            &&& (forall|k: int| 0 <= k < msg.buffer.len() ==> #[trigger] msg.buffer[k] != 10)
            &&& {
                let en = st + msg.buffer.len();
                ||| en == buf.len()
                ||| buf[en] == 10
                ||| (buf[en] == 13 && en + 1 < buf.len() && buf[en + 1] == 10)
            }
        },
{
    lemma_line_bounds(buf, t.0);
    let st = line_start(buf, t.0);
    let en = line_end(buf, st);
    let b = buf.subrange(st, en);
    assert forall|k: int| 0 <= k < b.len() implies #[trigger] b[k] != 10 by {
        assert(b[k] == buf[st + k]);
    }
}

/// A typo outside the ignored regions.
pub open spec fn kept(blocks: Seq<(usize, usize)>, t: TypoView) -> bool {
    !spec_ignored_at(blocks, t.0, encode_utf8(t.1).len() as int)
}

/// A typo that starts inside the buffer, so that its line can be shown.
pub open spec fn locatable(buf: Seq<u8>, t: TypoView) -> bool {
    0 <= t.0 < buf.len()
}

/// The reports of the typos `ts[k..]` in a file name.
pub open spec fn name_typos(path: Seq<char>, name: Seq<char>, ts: Seq<TypoView>, k: int) -> Seq<ActionView>
    decreases ts.len() - k,
{
    if k < 0 || k >= ts.len() {
        seq![]
    } else {
        seq![name_typo(path, name, ts[k])] + name_typos(path, name, ts, k + 1)
    }
}

/// The reports of the typos `ts[k..]` in a file that are neither ignored nor fixed (when
/// `fixing`).
pub open spec fn line_typos(
    path: Seq<char>,
    buf: Seq<u8>,
    blocks: Seq<(usize, usize)>,
    fixing: bool,
    ts: Seq<TypoView>,
    k: int,
) -> Seq<ActionView>
    decreases ts.len() - k,
{
    if k < 0 || k >= ts.len() {
        seq![]
    } else {
        let t = ts[k];
        (if kept(blocks, t) && !(fixing && spec_fixable(t)) && locatable(buf, t) {
            seq![line_typo(path, buf, t)]
        } else {
            seq![]
        }) + line_typos(path, buf, blocks, fixing, ts, k + 1)
    }
}

/// A typo that a file's check reports on its line: outside the ignored regions, inside the
/// buffer, and (when fixing) without a single correction.
pub open spec fn reported_on_line(buf: Seq<u8>, blocks: Seq<(usize, usize)>, fixing: bool, t: TypoView) -> bool {
    &&& kept(blocks, t)
    &&& !(fixing && spec_fixable(t))
    &&& locatable(buf, t)
}

/// Which typos a file's check reports, line by line: each report is the line report of a
/// typo that `reported_on_line` admits, and each such typo is reported.
pub proof fn lemma_line_typos_reported(
    path: Seq<char>,
    buf: Seq<u8>,
    blocks: Seq<(usize, usize)>,
    fixing: bool,
    ts: Seq<TypoView>,
    k: int,
)
    requires
        0 <= k <= ts.len(),
    ensures
        forall|m: int|
            0 <= m < line_typos(path, buf, blocks, fixing, ts, k).len() ==> exists|j: int|
                #![trigger ts[j]]
                k <= j < ts.len() && reported_on_line(buf, blocks, fixing, ts[j])
                    && #[trigger] line_typos(path, buf, blocks, fixing, ts, k)[m] == line_typo(path, buf, ts[j]),
        forall|j: int|
            #![trigger ts[j]]
            k <= j < ts.len() && reported_on_line(buf, blocks, fixing, ts[j]) ==> exists|m: int|
                0 <= m < line_typos(path, buf, blocks, fixing, ts, k).len() && #[trigger] line_typos(
                    path,
                    buf,
                    blocks,
                    fixing,
                    ts,
                    k,
                )[m] == line_typo(path, buf, ts[j]),
    decreases ts.len() - k,
{
    if k < ts.len() {
        lemma_line_typos_reported(path, buf, blocks, fixing, ts, k + 1);
        let t = ts[k];
        let rest = line_typos(path, buf, blocks, fixing, ts, k + 1);
        let all = line_typos(path, buf, blocks, fixing, ts, k);
        if reported_on_line(buf, blocks, fixing, t) {
            let a = line_typo(path, buf, t);
            assert(all == seq![a] + rest);
            assert forall|m: int| 0 <= m < all.len() implies exists|j: int|
                #![trigger ts[j]]
                k <= j < ts.len() && reported_on_line(buf, blocks, fixing, ts[j]) && #[trigger] all[m]
                    == line_typo(path, buf, ts[j]) by {
                if m == 0 {
                    assert(all[0] == a);
                    assert(ts[k] == t);
                } else {
                    assert(all[m] == rest[m - 1]);
                }
            }
            assert forall|j: int|
                #![trigger ts[j]]
                k <= j < ts.len() && reported_on_line(buf, blocks, fixing, ts[j]) implies exists|m: int|
                    0 <= m < all.len() && #[trigger] all[m] == line_typo(path, buf, ts[j]) by {
                if j == k {
                    assert(all[0] == a);
                } else {
                    let m = choose|m: int| 0 <= m < rest.len() && #[trigger] rest[m] == line_typo(path, buf, ts[j]);
                    assert(all[m + 1] == rest[m]);
                }
            }
        } else {
            assert(all == rest);
        }
    }
}

/// The reports of the typos `ts[k..]` in a file name that cannot be fixed.
pub open spec fn unfixable_name_typos(path: Seq<char>, name: Seq<char>, ts: Seq<TypoView>, k: int) -> Seq<
    ActionView,
>
    decreases ts.len() - k,
{
    if k < 0 || k >= ts.len() {
        seq![]
    } else {
        (if spec_fixable(ts[k]) {
            seq![]
        } else {
            seq![name_typo(path, name, ts[k])]
        }) + unfixable_name_typos(path, name, ts, k + 1)
    }
}

/// The fixable typos among `ts[k..]` outside the ignored regions.
pub open spec fn kept_fixes(blocks: Seq<(usize, usize)>, ts: Seq<TypoView>, k: int) -> Seq<TypoView>
    decreases ts.len() - k,
{
    if k < 0 || k >= ts.len() {
        seq![]
    } else {
        (if kept(blocks, ts[k]) && spec_fixable(ts[k]) {
            seq![ts[k]]
        } else {
            seq![]
        }) + kept_fixes(blocks, ts, k + 1)
    }
}

/// The file name is `-`: standard input.
pub open spec fn is_stdin(path: Seq<char>) -> bool {
    path == seq!['-']
}

/// What a check does with a binary file it would skip, else with the content.
pub open spec fn unless_binary(
    path: Seq<char>,
    explicit: bool,
    binary: bool,
    t: ContentType,
    then: Seq<ActionView>,
) -> Seq<ActionView> {
    if !explicit && !binary && t == ContentType::Binary {
        seq![ActionView::Report(MessageView::BinaryFile(path))]
    } else {
        then
    }
}

fn name_typo_action(path: &str, name: &str, t: &Typo) -> (r: Action)
    ensures
        r@ == name_typo(path@, name@, t@),
{
    Action::Report(
        Message::Typo(
            TypoMessage {
                context: Some(Context::Path(PathContext { path: path.to_owned() })),
                buffer: slice_to_vec(name.as_bytes()),
                byte_offset: t.byte_offset,
                typo: t.typo.clone(),
                corrections: t.corrections.borrow(),
            },
        ),
    )
}

/// The 1-indexed line of `off`, counting on from where `acc` stopped when it can.
fn line_number(acc: &mut AccumulateLineNum, buf: &[u8], off: usize) -> (r: usize)
    requires
        off < buf@.len(),
        old(acc).spec_last_offset() <= buf@.len(),
        old(acc).spec_line_num() == 1 + count_newlines(buf@.take(old(acc).spec_last_offset() as int)),
    ensures
        r == 1 + count_newlines(buf@.take(off as int)),
        final(acc).spec_last_offset() == off,
        final(acc).spec_line_num() == r,
{
    let n = buf.len();
    assert(off < n);
    if off < acc.last_offset() {
        *acc = AccumulateLineNum::new();
        assert(buf@.take(0) =~= Seq::<u8>::empty());
    }
    acc.line_num(buf, off)
}

fn line_typo_action(path: &str, buf: &[u8], t: &Typo, line_num: usize) -> (r: Action)
    requires
        locatable(buf@, t@),
        line_num == 1 + count_newlines(buf@.take(t@.0)),
    ensures
        r@ == line_typo(path@, buf@, t@),
{
    proof {
        lemma_rfind_newline(buf@, t.byte_offset as int);
    }
    let (line, line_offset) = extract_line(buf, t.byte_offset);
    Action::Report(
        Message::Typo(
            TypoMessage {
                context: Some(Context::File(FileContext { path: path.to_owned(), line_num })),
                buffer: slice_to_vec(line),
                byte_offset: line_offset,
                typo: t.typo.clone(),
                corrections: t.corrections.borrow(),
            },
        ),
    )
}

fn is_kept(ignores: &Ignores, t: &Typo) -> (r: bool)
    ensures
        r == kept(ignores@, t@),
{
    let len = t.typo.as_str().as_bytes().len();
    !ignores.is_ignored_at(t.byte_offset, len)
}

/// The reports of typos in a file name.
fn name_typo_actions(path: &str, name: &str, ts: &Vec<Typo>) -> (r: Vec<Action>)
    ensures
        actions_view(r@) == name_typos(path@, name@, typos_view(ts@), 0),
{
    let ghost tv = typos_view(ts@);
    let mut r: Vec<Action> = Vec::new();
    let mut k: usize = 0;
    while k < ts.len()
        invariant
            k <= ts@.len(),
            tv == typos_view(ts@),
            actions_view(r@) + name_typos(path@, name@, tv, k as int) == name_typos(path@, name@, tv, 0),
        decreases ts@.len() - k,
    {
        assert(tv[k as int] == ts@[k as int]@);
        let a = name_typo_action(path, name, &ts[k]);
        let ghost before = actions_view(r@);
        r.push(a);
        assert(actions_view(r@) =~= before + seq![a@]);
        k = k + 1;
    }
    assert(name_typos(path@, name@, tv, k as int) =~= Seq::<ActionView>::empty());
    assert(actions_view(r@) =~= name_typos(path@, name@, tv, 0));
    r
}

/// The reports of typos in a file (those neither ignored nor, when `fixing`, fixed) and
/// the fixes, in order.
fn line_typo_actions(
    path: &str,
    buf: &[u8],
    ignores: &Ignores,
    fixing: bool,
    ts: Vec<Typo>,
) -> (r: (Vec<Action>, Vec<Typo>))
    ensures
        actions_view(r.0@) == line_typos(path@, buf@, ignores@, fixing, typos_view(ts@), 0),
        fixing ==> typos_view(r.1@) == kept_fixes(ignores@, typos_view(ts@), 0),
{
    broadcast use vstd::std_specs::vec::axiom_spec_into_iter;
    let ghost tv = typos_view(ts@);
    let ghost blocks = ignores@;
    let mut r: Vec<Action> = Vec::new();
    let mut fixes: Vec<Typo> = Vec::new();
    let mut acc = AccumulateLineNum::new();
    proof {
        assert(buf@.take(0) =~= Seq::<u8>::empty());
    }
    for t in iter: ts.into_iter()
        invariant
            iter.seq() == ts@,
            tv == typos_view(ts@),
            blocks == ignores@,
            acc.spec_last_offset() <= buf@.len(),
            acc.spec_line_num() == 1 + count_newlines(buf@.take(acc.spec_last_offset() as int)),
            actions_view(r@) + line_typos(path@, buf@, blocks, fixing, tv, iter.index() as int)
                == line_typos(path@, buf@, blocks, fixing, tv, 0),
            fixing ==> typos_view(fixes@) + kept_fixes(blocks, tv, iter.index() as int) == kept_fixes(
                blocks,
                tv,
                0,
            ),
    {
        let ghost i = iter.index() as int;
        assert(tv[i] == t@);
        let ghost before = actions_view(r@);
        let ghost fbefore = typos_view(fixes@);
        if is_kept(ignores, &t) {
            if fixing && is_fixable(&t) {
                fixes.push(t);
                assert(typos_view(fixes@) =~= fbefore + seq![tv[i]]);
                assert(actions_view(r@) =~= before + Seq::<ActionView>::empty());
            } else if t.byte_offset < buf.len() {
                let line_num = line_number(&mut acc, buf, t.byte_offset);
                let a = line_typo_action(path, buf, &t, line_num);
                r.push(a);
                assert(actions_view(r@) =~= before + seq![a@]);
                assert(typos_view(fixes@) =~= fbefore + Seq::<TypoView>::empty());
            } else {
                assert(actions_view(r@) =~= before + Seq::<ActionView>::empty());
                assert(typos_view(fixes@) =~= fbefore + Seq::<TypoView>::empty());
            }
        } else {
            assert(actions_view(r@) =~= before + Seq::<ActionView>::empty());
            assert(typos_view(fixes@) =~= fbefore + Seq::<TypoView>::empty());
        }
        assert(line_typos(path@, buf@, blocks, fixing, tv, i) == (if kept(blocks, tv[i]) && !(
        fixing && spec_fixable(tv[i])) && locatable(buf@, tv[i]) {
            seq![line_typo(path@, buf@, tv[i])]
        } else {
            seq![]
        }) + line_typos(path@, buf@, blocks, fixing, tv, i + 1));
        assert(kept_fixes(blocks, tv, i) == (if kept(blocks, tv[i]) && spec_fixable(tv[i]) {
            seq![tv[i]]
        } else {
            seq![]
        }) + kept_fixes(blocks, tv, i + 1));
    }
    assert(line_typos(path@, buf@, blocks, fixing, tv, tv.len() as int) =~= Seq::<ActionView>::empty());
    assert(kept_fixes(blocks, tv, tv.len() as int) =~= Seq::<TypoView>::empty());
    assert(actions_view(r@) =~= line_typos(path@, buf@, blocks, fixing, tv, 0));
    assert(fixing ==> typos_view(fixes@) =~= kept_fixes(blocks, tv, 0));
    (r, fixes)
}

/// The reports of typos in a file name that cannot be fixed, and the fixes.
fn name_fix_split(path: &str, name: &str, ts: Vec<Typo>) -> (r: (Vec<Action>, Vec<Typo>))
    ensures
        actions_view(r.0@) == unfixable_name_typos(path@, name@, typos_view(ts@), 0),
        typos_view(r.1@) == kept_fixes(seq![], typos_view(ts@), 0),
{
    broadcast use vstd::std_specs::vec::axiom_spec_into_iter;
    let ghost tv = typos_view(ts@);
    let mut r: Vec<Action> = Vec::new();
    let mut fixes: Vec<Typo> = Vec::new();
    for t in iter: ts.into_iter()
        invariant
            iter.seq() == ts@,
            tv == typos_view(ts@),
            actions_view(r@) + unfixable_name_typos(path@, name@, tv, iter.index() as int)
                == unfixable_name_typos(path@, name@, tv, 0),
            typos_view(fixes@) + kept_fixes(seq![], tv, iter.index() as int) == kept_fixes(seq![], tv, 0),
    {
        let ghost i = iter.index() as int;
        assert(tv[i] == t@);
        assert(kept(seq![], tv[i]));
        let ghost before = actions_view(r@);
        let ghost fbefore = typos_view(fixes@);
        if is_fixable(&t) {
            fixes.push(t);
            assert(typos_view(fixes@) =~= fbefore + seq![tv[i]]);
            assert(actions_view(r@) =~= before + Seq::<ActionView>::empty());
        } else {
            let a = name_typo_action(path, name, &t);
            r.push(a);
            assert(actions_view(r@) =~= before + seq![a@]);
            assert(typos_view(fixes@) =~= fbefore + Seq::<TypoView>::empty());
        }
    }
    assert(unfixable_name_typos(path@, name@, tv, tv.len() as int) =~= Seq::<ActionView>::empty());
    assert(kept_fixes(seq![], tv, tv.len() as int) =~= Seq::<TypoView>::empty());
    assert(actions_view(r@) =~= unfixable_name_typos(path@, name@, tv, 0));
    assert(typos_view(fixes@) =~= kept_fixes(seq![], tv, 0));
    (r, fixes)
}

/// The report of a term found in a file or file name.
pub open spec fn parse_term(ctx: Option<ContextView>, kind: ParseKind, t: TokenView) -> ActionView {
    ActionView::Report(MessageView::Parse(ctx, kind, t.0))
}

/// The reports of the terms `ts[k..]` outside the ignored regions.
pub open spec fn term_reports(
    ctx: Option<ContextView>,
    kind: ParseKind,
    blocks: Seq<(usize, usize)>,
    ts: Seq<TokenView>,
    k: int,
) -> Seq<ActionView>
    decreases ts.len() - k,
{
    if k < 0 || k >= ts.len() {
        seq![]
    } else {
        (if spec_ignored_at(blocks, ts[k].2, encode_utf8(ts[k].0).len() as int) {
            seq![]
        } else {
            seq![parse_term(ctx, kind, ts[k])]
        }) + term_reports(ctx, kind, blocks, ts, k + 1)
    }
}

fn ident_reports(ctx: &Option<Context>, kind: ParseKind, ignores: &Ignores, ts: &Vec<Identifier>) -> (r: Vec<
    Action,
>)
    ensures
        actions_view(r@) == term_reports(opt_context_view(*ctx), kind, ignores@, idents_view(ts@), 0),
{
    let ghost tv = idents_view(ts@);
    let ghost cv = opt_context_view(*ctx);
    let mut r: Vec<Action> = Vec::new();
    let mut k: usize = 0;
    while k < ts.len()
        invariant
            k <= ts@.len(),
            tv == idents_view(ts@),
            cv == opt_context_view(*ctx),
            actions_view(r@) + term_reports(cv, kind, ignores@, tv, k as int) == term_reports(
                cv,
                kind,
                ignores@,
                tv,
                0,
            ),
        decreases ts@.len() - k,
    {
        let t = &ts[k];
        assert(tv[k as int] == t@);
        let token = t.token();
        proof {
            lemma_byte_len_is_encoding_len(token@);
        }
        let ghost before = actions_view(r@);
        if !ignores.is_ignored_at(t.offset(), token.as_bytes().len()) {
            let a = Action::Report(
                Message::Parse(Parse { context: clone_context_opt(ctx), kind, data: token.to_owned() }),
            );
            r.push(a);
            assert(actions_view(r@) =~= before + seq![a@]);
        } else {
            assert(actions_view(r@) =~= before + Seq::<ActionView>::empty());
        }
        k = k + 1;
    }
    assert(term_reports(cv, kind, ignores@, tv, k as int) =~= Seq::<ActionView>::empty());
    assert(actions_view(r@) =~= term_reports(cv, kind, ignores@, tv, 0));
    r
}

fn word_reports(ctx: &Option<Context>, kind: ParseKind, ignores: &Ignores, ts: &Vec<Word>) -> (r: Vec<
    Action,
>)
    ensures
        actions_view(r@) == term_reports(opt_context_view(*ctx), kind, ignores@, words_view(ts@), 0),
{
    let ghost tv = words_view(ts@);
    let ghost cv = opt_context_view(*ctx);
    let mut r: Vec<Action> = Vec::new();
    let mut k: usize = 0;
    while k < ts.len()
        invariant
            k <= ts@.len(),
            tv == words_view(ts@),
            cv == opt_context_view(*ctx),
            actions_view(r@) + term_reports(cv, kind, ignores@, tv, k as int) == term_reports(
                cv,
                kind,
                ignores@,
                tv,
                0,
            ),
        decreases ts@.len() - k,
    {
        let t = &ts[k];
        assert(tv[k as int] == t@);
        let token = t.token();
        proof {
            lemma_byte_len_is_encoding_len(token@);
        }
        let ghost before = actions_view(r@);
        if !ignores.is_ignored_at(t.offset(), token.as_bytes().len()) {
            let a = Action::Report(
                Message::Parse(Parse { context: clone_context_opt(ctx), kind, data: token.to_owned() }),
            );
            r.push(a);
            assert(actions_view(r@) =~= before + seq![a@]);
        } else {
            assert(actions_view(r@) =~= before + Seq::<ActionView>::empty());
        }
        k = k + 1;
    }
    assert(term_reports(cv, kind, ignores@, tv, k as int) =~= Seq::<ActionView>::empty());
    assert(actions_view(r@) =~= term_reports(cv, kind, ignores@, tv, 0));
    r
}

/// What writing the fixes back does: nothing without fixes (unless the file is standard
/// input, which is written back as it is); the fixed buffer when the fixes fit.
pub open spec fn fix_write(path: Seq<char>, t: ContentType, buf: Seq<u8>, fixes: Seq<TypoView>) -> Seq<
    ActionView,
> {
    if fixes.len() > 0 || is_stdin(path) {
        if fixes_fit(buf.len() as int, fixes, 0, 0) {
            spec_write_actions(path, t, apply_fixes(buf, fixes, 0, 0))
        } else {
            seq![]
        }
    } else {
        seq![]
    }
}

/// The new file name once the fixes are applied, when there are fixes and they fit.
pub open spec fn fixed_name(name: Seq<char>, fixes: Seq<TypoView>) -> Option<Seq<u8>> {
    if fixes.len() > 0 && fixes_fit(encode_utf8(name).len() as int, fixes, 0, 0) {
        Some(apply_fixes(encode_utf8(name), fixes, 0, 0))
    } else {
        None
    }
}

/// The content and its fixed version, when there are fixes and they fit; else nothing.
pub open spec fn fixed_content(buf: Seq<u8>, fixes: Seq<TypoView>) -> (Seq<u8>, Seq<u8>) {
    if fixes.len() > 0 && fixes_fit(buf.len() as int, fixes, 0, 0) {
        (buf, apply_fixes(buf, fixes, 0, 0))
    } else {
        (seq![], seq![])
    }
}

fn is_stdin_path(path: &str) -> (r: bool)
    ensures
        r == is_stdin(path@),
{
    let chars = chars_of(path);
    if chars.len() == 1 && chars[0] == '-' {
        assert(path@ =~= seq!['-']);
        true
    } else {
        false
    }
}

/// The fixed bytes, when the fixes fit.
fn apply_if_fit(bytes: Vec<u8>, fixes: Vec<Typo>) -> (r: Option<Vec<u8>>)
    ensures
        fixes_fit(bytes@.len() as int, typos_view(fixes@), 0, 0) <==> r is Some,
        r matches Some(b) ==> b@ == apply_fixes(bytes@, typos_view(fixes@), 0, 0),
{
    if fixes_fit_in(bytes.len(), &fixes) {
        proof {
            lemma_fixes_fit(bytes@, typos_view(fixes@), 0, 0);
        }
        Some(fix_buffer(bytes, fixes))
    } else {
        None
    }
}

// ---------------------------------------------------------------------------------------
// The checks
// ---------------------------------------------------------------------------------------

pub open spec fn opt_name_view(n: Option<&str>) -> Option<Seq<char>> {
    match n {
        Some(n) => Some(n@),
        None => None,
    }
}

/// The regions of `buf` that the policy ignores.
pub open spec fn policy_blocks<D>(policy: &Policy<D>, buf: Seq<u8>) -> Seq<(usize, usize)> {
    spec_ignore_blocks(patterns_view(policy.ignore@), buf)
}

/// Reporting typos: in the file name, then (unless the file is skipped as binary) in its
/// lines, outside the ignored regions.
pub open spec fn typos_actions<D: Dictionary>(
    policy: &Policy<D>,
    path: Seq<char>,
    explicit: bool,
    file_name: Option<Seq<char>>,
    read: (Seq<ActionView>, Seq<u8>, ContentType),
) -> Seq<ActionView> {
    let tok = policy.tokenizer@;
    (if policy.check_filenames {
        match file_name {
            Some(n) => name_typos(path, n, spec_check_text(policy.dict, tok, n), 0),
            None => seq![],
        }
    } else {
        seq![]
    }) + (if policy.check_files {
        read.0 + unless_binary(
            path,
            explicit,
            policy.binary,
            read.2,
            line_typos(
                path,
                read.1,
                policy_blocks(policy, read.1),
                false,
                spec_check_bytes(policy.dict, tok, read.1),
                0,
            ),
        )
    } else {
        seq![]
    })
}

/// Fixing typos: in the content (reporting the typos that cannot be fixed, then writing
/// the fixed content back), then in the file name (renaming the file).
pub open spec fn fix_typos_actions<D: Dictionary>(
    policy: &Policy<D>,
    path: Seq<char>,
    explicit: bool,
    file_name: Option<Seq<char>>,
    read: (Seq<ActionView>, Seq<u8>, ContentType),
) -> Seq<ActionView> {
    let tok = policy.tokenizer@;
    let ts = spec_check_bytes(policy.dict, tok, read.1);
    let blocks = policy_blocks(policy, read.1);
    (if policy.check_files {
        read.0 + unless_binary(
            path,
            explicit,
            policy.binary,
            read.2,
            line_typos(path, read.1, blocks, true, ts, 0) + fix_write(
                path,
                read.2,
                read.1,
                kept_fixes(blocks, ts, 0),
            ),
        )
    } else {
        seq![]
    }) + (if policy.check_filenames {
        match file_name {
            Some(n) => {
                let nts = spec_check_text(policy.dict, tok, n);
                unfixable_name_typos(path, n, nts, 0) + match fixed_name(n, kept_fixes(seq![], nts, 0)) {
                    Some(new_name) => seq![ActionView::Rename(new_name)],
                    None => seq![],
                }
            },
            None => seq![],
        }
    } else {
        seq![]
    })
}

/// What a diff of the fixes compares: the content and its fixed version (both empty when
/// nothing is fixed), and the fixed file name.
pub open spec fn diff_inputs<D: Dictionary>(
    policy: &Policy<D>,
    path: Seq<char>,
    explicit: bool,
    file_name: Option<Seq<char>>,
    read: (Seq<ActionView>, Seq<u8>, ContentType),
) -> (Seq<u8>, Seq<u8>, Option<Seq<u8>>) {
    let tok = policy.tokenizer@;
    let ts = spec_check_bytes(policy.dict, tok, read.1);
    let blocks = policy_blocks(policy, read.1);
    let content = if policy.check_files && !(!explicit && !policy.binary && read.2
        == ContentType::Binary) {
        fixed_content(read.1, kept_fixes(blocks, ts, 0))
    } else {
        (seq![], seq![])
    };
    let new_name = if policy.check_filenames {
        match file_name {
            Some(n) => fixed_name(n, kept_fixes(seq![], spec_check_text(policy.dict, tok, n), 0)),
            None => None,
        }
    } else {
        None
    };
    (content.0, content.1, new_name)
}

/// Showing the fixes: reporting the typos that cannot be fixed, then the difference that
/// fixing would make, if any.
pub open spec fn diff_typos_actions<D: Dictionary>(
    policy: &Policy<D>,
    path: Seq<char>,
    explicit: bool,
    file_name: Option<Seq<char>>,
    read: (Seq<ActionView>, Seq<u8>, ContentType),
) -> Seq<ActionView> {
    let tok = policy.tokenizer@;
    let ts = spec_check_bytes(policy.dict, tok, read.1);
    let blocks = policy_blocks(policy, read.1);
    let d = diff_inputs(policy, path, explicit, file_name, read);
    (if policy.check_files {
        read.0 + unless_binary(
            path,
            explicit,
            policy.binary,
            read.2,
            line_typos(path, read.1, blocks, true, ts, 0),
        )
    } else {
        seq![]
    }) + (if policy.check_filenames {
        match file_name {
            Some(n) => unfixable_name_typos(path, n, spec_check_text(policy.dict, tok, n), 0),
            None => seq![],
        }
    } else {
        seq![]
    }) + (if d.2 is Some || d.0.len() > 0 {
        seq![ActionView::Diff(d.0, d.1, d.2)]
    } else {
        seq![]
    })
}

/// Reporting terms: those of the file name, then (unless the file is skipped as binary)
/// those of the content outside the ignored regions, with line 0.
pub open spec fn terms_actions<D: Dictionary>(
    policy: &Policy<D>,
    kind: ParseKind,
    path: Seq<char>,
    explicit: bool,
    file_name: Option<Seq<char>>,
    read: (Seq<ActionView>, Seq<u8>, ContentType),
) -> Seq<ActionView> {
    let tok = policy.tokenizer@;
    let terms_of_text = |n: Seq<char>|
        if kind == ParseKind::Identifier {
            spec_parse_text(tok, n)
        } else {
            words_from(spec_parse_text(tok, n), 0)
        };
    let terms_of_bytes = |b: Seq<u8>|
        if kind == ParseKind::Identifier {
            spec_parse_bytes(tok, b)
        } else {
            words_from(spec_parse_bytes(tok, b), 0)
        };
    (if policy.check_filenames {
        match file_name {
            Some(n) => term_reports(Some(ContextView::Path(path)), kind, seq![], terms_of_text(n), 0),
            None => seq![],
        }
    } else {
        seq![]
    }) + (if policy.check_files {
        read.0 + unless_binary(
            path,
            explicit,
            policy.binary,
            read.2,
            term_reports(
                Some(ContextView::File(path, 0)),
                kind,
                policy_blocks(policy, read.1),
                terms_of_bytes(read.1),
                0,
            ),
        )
    } else {
        seq![]
    })
}

/// Reporting a file (its type, or that it is found): without reading it when the policy
/// takes binary files; else binary files that were not named are skipped.
pub open spec fn listing_actions(
    binary: bool,
    path: Seq<char>,
    explicit: bool,
    read: (Seq<ActionView>, Seq<u8>, ContentType),
    listed: ActionView,
) -> Seq<ActionView> {
    if binary {
        seq![listed]
    } else {
        read.0 + unless_binary(path, explicit, false, read.2, seq![listed])
    }
}

/// A check of one file: what it reports and does.
pub trait FileChecker<D: Dictionary> {
    /// Whether the check reads the file's content under this policy (else it takes none).
    fn reads_content(&self, policy: &Policy<D>) -> bool;

    /// The steps of checking the file at `path` (`explicit` when it was named rather than
    /// found), whose last component is `file_name`, given what reading it gave.
    fn check_file(
        &self,
        path: &str,
        explicit: bool,
        file_name: Option<&str>,
        read: Option<ReadFile>,
        policy: &Policy<D>,
    ) -> Vec<Action>
        requires
            file_name matches Some(n) ==> byte_len(n@) <= usize::MAX,
    ;
}

/// Reports typos.
#[derive(Debug, Clone, Copy)]
pub struct Typos;

/// Fixes typos in place.
#[derive(Debug, Clone, Copy)]
pub struct FixTypos;

/// Shows how fixing typos would change files.
#[derive(Debug, Clone, Copy)]
pub struct DiffTypos;

/// Reports identifiers.
#[derive(Debug, Clone, Copy)]
pub struct Identifiers;

/// Reports words.
#[derive(Debug, Clone, Copy)]
pub struct Words;

/// Reports the type of each file.
#[derive(Debug, Clone, Copy)]
pub struct FileTypes;

/// Reports each file found.
#[derive(Debug, Clone, Copy)]
pub struct FoundFiles;

impl<D: Dictionary> FileChecker<D> for Typos {
    fn reads_content(&self, policy: &Policy<D>) -> (r: bool)
        ensures
            r == policy.check_files,
    {
        policy.check_files
    }

    fn check_file(
        &self,
        path: &str,
        explicit: bool,
        file_name: Option<&str>,
        read: Option<ReadFile>,
        policy: &Policy<D>,
    ) -> (r: Vec<Action>)
        ensures
            actions_view(r@) == typos_actions(policy, path@, explicit, opt_name_view(file_name), read_view(read)),
    {
        let ghost rv = read_view(read);
        let mut r: Vec<Action> = Vec::new();
        if policy.check_filenames {
            match file_name {
                Some(name) => {
                    let ts = check_str(name, policy.tokenizer, policy.dict);
                    let mut a = name_typo_actions(path, name, &ts);
                    r.append(&mut a);
                },
                None => {},
            }
        }
        let ghost names = actions_view(r@);
        if policy.check_files {
            let (mut actions, buffer, t) = read_parts(read);
            r.append(&mut actions);
            let ghost with_read = actions_view(r@);
            assert(with_read =~= names + rv.0);
            if !explicit && !policy.binary && t.is_binary() {
                r.push(Action::Report(Message::BinaryFile(BinaryFile { path: path.to_owned() })));
                assert(actions_view(r@) =~= with_read + seq![ActionView::Report(MessageView::BinaryFile(path@))]);
            } else {
                let ts = check_bytes(buffer.as_slice(), policy.tokenizer, policy.dict);
                let ignores = Ignores::new(buffer.as_slice(), policy.ignore);
                let (mut a, _) = line_typo_actions(path, buffer.as_slice(), &ignores, false, ts);
                let ghost added = actions_view(a@);
                r.append(&mut a);
                assert(actions_view(r@) =~= with_read + added);
            }
            assert(actions_view(r@) =~= typos_actions(policy, path@, explicit, opt_name_view(file_name), rv));
        } else {
            assert(actions_view(r@) =~= typos_actions(policy, path@, explicit, opt_name_view(file_name), rv));
        }
        r
    }
}

impl<D: Dictionary> FileChecker<D> for FixTypos {
    fn reads_content(&self, policy: &Policy<D>) -> (r: bool)
        ensures
            r == policy.check_files,
    {
        policy.check_files
    }

    fn check_file(
        &self,
        path: &str,
        explicit: bool,
        file_name: Option<&str>,
        read: Option<ReadFile>,
        policy: &Policy<D>,
    ) -> (r: Vec<Action>)
        ensures
            actions_view(r@) == fix_typos_actions(
                policy,
                path@,
                explicit,
                opt_name_view(file_name),
                read_view(read),
            ),
    {
        let ghost rv = read_view(read);
        let ghost tok = policy.tokenizer@;
        let mut r: Vec<Action> = Vec::new();
        if policy.check_files {
            let (mut actions, buffer, t) = read_parts(read);
            r.append(&mut actions);
            let ghost with_read = actions_view(r@);
            if !explicit && !policy.binary && t.is_binary() {
                r.push(Action::Report(Message::BinaryFile(BinaryFile { path: path.to_owned() })));
                assert(actions_view(r@) =~= with_read + seq![ActionView::Report(MessageView::BinaryFile(path@))]);
            } else {
                let ts = check_bytes(buffer.as_slice(), policy.tokenizer, policy.dict);
                let ghost tv = typos_view(ts@);
                let ignores = Ignores::new(buffer.as_slice(), policy.ignore);
                let (mut a, fixes) = line_typo_actions(path, buffer.as_slice(), &ignores, true, ts);
                let ghost reports = actions_view(a@);
                let ghost fv = typos_view(fixes@);
                r.append(&mut a);
                let ghost before_write = actions_view(r@);
                assert(before_write =~= with_read + reports);
                if fixes.len() > 0 || is_stdin_path(path) {
                    let ghost b = buffer@;
                    match apply_if_fit(buffer, fixes) {
                        Some(fixed) => {
                            let mut w = write_actions(path, t, fixed);
                            let ghost wv = actions_view(w@);
                            r.append(&mut w);
                            assert(actions_view(r@) =~= before_write + wv);
                        },
                        None => {
                            assert(actions_view(r@) =~= before_write + Seq::<ActionView>::empty());
                        },
                    }
                } else {
                    assert(actions_view(r@) =~= before_write + Seq::<ActionView>::empty());
                }
            }
        }
        let ghost content = actions_view(r@);
        assert(content =~= (if policy.check_files {
            rv.0 + unless_binary(
                path@,
                explicit,
                policy.binary,
                rv.2,
                line_typos(
                    path@,
                    rv.1,
                    policy_blocks(policy, rv.1),
                    true,
                    spec_check_bytes(policy.dict, tok, rv.1),
                    0,
                ) + fix_write(
                    path@,
                    rv.2,
                    rv.1,
                    kept_fixes(policy_blocks(policy, rv.1), spec_check_bytes(policy.dict, tok, rv.1), 0),
                ),
            )
        } else {
            Seq::<ActionView>::empty()
        }));
        if policy.check_filenames {
            match file_name {
                Some(name) => {
                    let ts = check_str(name, policy.tokenizer, policy.dict);
                    let (mut a, fixes) = name_fix_split(path, name, ts);
                    let ghost reports = actions_view(a@);
                    r.append(&mut a);
                    let ghost before_rename = actions_view(r@);
                    assert(before_rename =~= content + reports);
                    let name_bytes = slice_to_vec(name.as_bytes());
                    if fixes.len() > 0 {
                        match apply_if_fit(name_bytes, fixes) {
                            Some(new_name) => {
                                let ghost nv = new_name@;
                                r.push(Action::Rename(new_name));
                                assert(actions_view(r@) =~= before_rename + seq![ActionView::Rename(nv)]);
                            },
                            None => {
                                assert(actions_view(r@) =~= before_rename + Seq::<ActionView>::empty());
                            },
                        }
                    } else {
                        assert(actions_view(r@) =~= before_rename + Seq::<ActionView>::empty());
                    }
                },
                None => {
                    assert(actions_view(r@) =~= content + Seq::<ActionView>::empty());
                },
            }
        } else {
            assert(actions_view(r@) =~= content + Seq::<ActionView>::empty());
        }
        r
    }
}

impl<D: Dictionary> FileChecker<D> for DiffTypos {
    fn reads_content(&self, policy: &Policy<D>) -> (r: bool)
        ensures
            r == policy.check_files,
    {
        policy.check_files
    }

    fn check_file(
        &self,
        path: &str,
        explicit: bool,
        file_name: Option<&str>,
        read: Option<ReadFile>,
        policy: &Policy<D>,
    ) -> (r: Vec<Action>)
        ensures
            actions_view(r@) == diff_typos_actions(
                policy,
                path@,
                explicit,
                opt_name_view(file_name),
                read_view(read),
            ),
    {
        let ghost rv = read_view(read);
        let ghost tok = policy.tokenizer@;
        let ghost d = diff_inputs(policy, path@, explicit, opt_name_view(file_name), rv);
        let mut r: Vec<Action> = Vec::new();
        let mut content: Vec<u8> = Vec::new();
        let mut new_content: Vec<u8> = Vec::new();
        if policy.check_files {
            let (mut actions, buffer, t) = read_parts(read);
            r.append(&mut actions);
            let ghost with_read = actions_view(r@);
            if !explicit && !policy.binary && t.is_binary() {
                r.push(Action::Report(Message::BinaryFile(BinaryFile { path: path.to_owned() })));
                assert(actions_view(r@) =~= with_read + seq![ActionView::Report(MessageView::BinaryFile(path@))]);
            } else {
                let ts = check_bytes(buffer.as_slice(), policy.tokenizer, policy.dict);
                let ignores = Ignores::new(buffer.as_slice(), policy.ignore);
                let (mut a, fixes) = line_typo_actions(path, buffer.as_slice(), &ignores, true, ts);
                let ghost reports = actions_view(a@);
                r.append(&mut a);
                assert(actions_view(r@) =~= with_read + reports);
                if fixes.len() > 0 {
                    let copy = slice_to_vec(buffer.as_slice());
                    match apply_if_fit(copy, fixes) {
                        Some(fixed) => {
                            new_content = fixed;
                            content = buffer;
                        },
                        None => {},
                    }
                }
            }
        }
        assert(content@ == d.0 && new_content@ == d.1);
        let ghost content_actions = actions_view(r@);
        let mut new_name: Option<Vec<u8>> = None;
        if policy.check_filenames {
            match file_name {
                Some(name) => {
                    let ts = check_str(name, policy.tokenizer, policy.dict);
                    let (mut a, fixes) = name_fix_split(path, name, ts);
                    let ghost reports = actions_view(a@);
                    r.append(&mut a);
                    assert(actions_view(r@) =~= content_actions + reports);
                    if fixes.len() > 0 {
                        let name_bytes = slice_to_vec(name.as_bytes());
                        new_name = apply_if_fit(name_bytes, fixes);
                    }
                },
                None => {
                    assert(actions_view(r@) =~= content_actions + Seq::<ActionView>::empty());
                },
            }
        } else {
            assert(actions_view(r@) =~= content_actions + Seq::<ActionView>::empty());
        }
        assert(opt_bytes_view(new_name) == d.2);
        let ghost before_diff = actions_view(r@);
        if new_name.is_some() || content.len() > 0 {
            let diff = Action::Diff { original: content, fixed: new_content, new_name };
            let ghost dv = diff@;
            r.push(diff);
            assert(actions_view(r@) =~= before_diff + seq![dv]);
        } else {
            assert(actions_view(r@) =~= before_diff + Seq::<ActionView>::empty());
        }
        r
    }
}

/// The steps of reporting terms of a file and its name.
fn terms_check<D: Dictionary>(
    kind: ParseKind,
    path: &str,
    explicit: bool,
    file_name: Option<&str>,
    read: Option<ReadFile>,
    policy: &Policy<D>,
) -> (r: Vec<Action>)
    requires
        file_name matches Some(n) ==> byte_len(n@) <= usize::MAX,
    ensures
        actions_view(r@) == terms_actions(policy, kind, path@, explicit, opt_name_view(file_name), read_view(read)),
{
    let ghost rv = read_view(read);
    let mut r: Vec<Action> = Vec::new();
    if policy.check_filenames {
        match file_name {
            Some(name) => {
                let ctx = Some(Context::Path(PathContext { path: path.to_owned() }));
                let none = Ignores::from_blocks(Vec::new());
                let idents = policy.tokenizer.parse_str(name);
                let mut a = match kind {
                    ParseKind::Identifier => ident_reports(&ctx, kind, &none, &idents),
                    ParseKind::Word => {
                        let words = split_all(&idents);
                        word_reports(&ctx, kind, &none, &words)
                    },
                };
                r.append(&mut a);
            },
            None => {},
        }
    }
    let ghost names = actions_view(r@);
    if policy.check_files {
        let (mut actions, buffer, t) = read_parts(read);
        r.append(&mut actions);
        let ghost with_read = actions_view(r@);
        assert(with_read =~= names + rv.0);
        if !explicit && !policy.binary && t.is_binary() {
            r.push(Action::Report(Message::BinaryFile(BinaryFile { path: path.to_owned() })));
            assert(actions_view(r@) =~= with_read + seq![ActionView::Report(MessageView::BinaryFile(path@))]);
        } else {
            let ctx = Some(Context::File(FileContext { path: path.to_owned(), line_num: 0 }));
            let ignores = Ignores::new(buffer.as_slice(), policy.ignore);
            let idents = policy.tokenizer.parse_bytes(buffer.as_slice());
            let mut a = match kind {
                ParseKind::Identifier => ident_reports(&ctx, kind, &ignores, &idents),
                ParseKind::Word => {
                    let words = split_all(&idents);
                    word_reports(&ctx, kind, &ignores, &words)
                },
            };
            let ghost added = actions_view(a@);
            r.append(&mut a);
            assert(actions_view(r@) =~= with_read + added);
        }
    }
    assert(actions_view(r@) =~= terms_actions(policy, kind, path@, explicit, opt_name_view(file_name), rv));
    r
}

impl<D: Dictionary> FileChecker<D> for Identifiers {
    fn reads_content(&self, policy: &Policy<D>) -> (r: bool)
        ensures
            r == policy.check_files,
    {
        policy.check_files
    }

    fn check_file(
        &self,
        path: &str,
        explicit: bool,
        file_name: Option<&str>,
        read: Option<ReadFile>,
        policy: &Policy<D>,
    ) -> (r: Vec<Action>)
        ensures
            actions_view(r@) == terms_actions(
                policy,
                ParseKind::Identifier,
                path@,
                explicit,
                opt_name_view(file_name),
                read_view(read),
            ),
    {
        terms_check(ParseKind::Identifier, path, explicit, file_name, read, policy)
    }
}

impl<D: Dictionary> FileChecker<D> for Words {
    fn reads_content(&self, policy: &Policy<D>) -> (r: bool)
        ensures
            r == policy.check_files,
    {
        policy.check_files
    }

    fn check_file(
        &self,
        path: &str,
        explicit: bool,
        file_name: Option<&str>,
        read: Option<ReadFile>,
        policy: &Policy<D>,
    ) -> (r: Vec<Action>)
        ensures
            actions_view(r@) == terms_actions(
                policy,
                ParseKind::Word,
                path@,
                explicit,
                opt_name_view(file_name),
                read_view(read),
            ),
    {
        terms_check(ParseKind::Word, path, explicit, file_name, read, policy)
    }
}

/// The steps of reporting one listed file.
fn listing_check(
    binary: bool,
    path: &str,
    explicit: bool,
    read: Option<ReadFile>,
    listed: Action,
) -> (r: Vec<Action>)
    ensures
        actions_view(r@) == listing_actions(binary, path@, explicit, read_view(read), listed@),
{
    let ghost rv = read_view(read);
    let ghost lv = listed@;
    let mut r: Vec<Action> = Vec::new();
    if binary {
        r.push(listed);
        assert(actions_view(r@) =~= seq![lv]);
    } else {
        let (mut actions, _buffer, t) = read_parts(read);
        r.append(&mut actions);
        let ghost with_read = actions_view(r@);
        if !explicit && t.is_binary() {
            r.push(Action::Report(Message::BinaryFile(BinaryFile { path: path.to_owned() })));
            assert(actions_view(r@) =~= with_read + seq![ActionView::Report(MessageView::BinaryFile(path@))]);
        } else {
            r.push(listed);
            assert(actions_view(r@) =~= with_read + seq![lv]);
        }
    }
    r
}

fn opt_str_to_string(s: Option<&str>) -> (r: Option<String>)
    ensures
        opt_string_view(r) == opt_name_view(s),
{
    match s {
        Some(s) => Some(s.to_owned()),
        None => None,
    }
}

impl<D: Dictionary> FileChecker<D> for FileTypes {
    /// The content is read only when the policy skips binary files.
    fn reads_content(&self, policy: &Policy<D>) -> (r: bool)
        ensures
            r == !policy.binary,
    {
        !policy.binary
    }

    fn check_file(
        &self,
        path: &str,
        explicit: bool,
        file_name: Option<&str>,
        read: Option<ReadFile>,
        policy: &Policy<D>,
    ) -> (r: Vec<Action>)
        ensures
            actions_view(r@) == listing_actions(
                policy.binary,
                path@,
                explicit,
                read_view(read),
                ActionView::Report(MessageView::FileType(path@, opt_name_view(policy.file_type))),
            ),
    {
        let listed = Action::Report(
            Message::FileType(FileType { path: path.to_owned(), file_type: opt_str_to_string(policy.file_type) }),
        );
        listing_check(policy.binary, path, explicit, read, listed)
    }
}

impl<D: Dictionary> FileChecker<D> for FoundFiles {
    /// The content is read only when the policy skips binary files.
    fn reads_content(&self, policy: &Policy<D>) -> (r: bool)
        ensures
            r == !policy.binary,
    {
        !policy.binary
    }

    fn check_file(
        &self,
        path: &str,
        explicit: bool,
        file_name: Option<&str>,
        read: Option<ReadFile>,
        policy: &Policy<D>,
    ) -> (r: Vec<Action>)
        ensures
            actions_view(r@) == listing_actions(
                policy.binary,
                path@,
                explicit,
                read_view(read),
                ActionView::Report(MessageView::File(path@)),
            ),
    {
        let listed = Action::Report(Message::File(File { path: path.to_owned() }));
        listing_check(policy.binary, path, explicit, read, listed)
    }
}

} // verus!
