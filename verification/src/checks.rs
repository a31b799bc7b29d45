//! Checks of buffers, file names and files: what each finds, as the messages it reports.

use vstd::prelude::*;
use vstd::string::StringSliceAdditionalSpecFns;
use vstd::slice::slice_to_vec;
use vstd::utf8::encode_utf8;

use crate::check::{
    check_bytes, check_str, spec_check_bytes, spec_check_text, typos_view, Typo, TypoView,
};
use crate::content::{massage_data, spec_inspect, spec_utf8_or_binary, ContentType};
use crate::dict::Dictionary;
use crate::file::{lemma_line_spans_bounds, line_spans, lines};
use crate::messages::{
    messages_view, strings_view, view_with_context, Message, MessageView, Parse,
};
use crate::parser::{idents_view, split_all, words_from, words_view};
use crate::report::{
    opt_context_view, BinaryFile, Context, ContextView, Error, File, FileContext, ParseKind,
    PathContext,
    Typo as TypoMessage, TypoMessageView,
};
use crate::tokens::{
    byte_len, spec_parse_bytes, spec_parse_text, Identifier, TokenView, Tokenizer, Word,
};

verus! {

// ---------------------------------------------------------------------------------------
// What the checks find
// ---------------------------------------------------------------------------------------

/// A message for each typo, all with the given context and buffer.
pub open spec fn typo_messages(ctx: Option<ContextView>, buffer: Seq<u8>, typos: Seq<TypoView>) -> Seq<
    MessageView,
> {
    typos.map_values(
        |t: TypoView|
            MessageView::Typo(
                TypoMessageView {
                    context: ctx,
                    buffer,
                    byte_offset: t.0,
                    typo: t.1,
                    corrections: t.2,
                },
            ),
    )
}

/// A message for each term, reporting its text.
pub open spec fn parse_messages(ctx: Option<ContextView>, kind: ParseKind, terms: Seq<TokenView>) -> Seq<
    MessageView,
> {
    terms.map_values(|t: TokenView| MessageView::Parse(ctx, kind, seq![t.0]))
}

/// The messages with the given context.
pub open spec fn in_context(msgs: Seq<MessageView>, ctx: Option<ContextView>) -> Seq<MessageView> {
    msgs.map_values(|m: MessageView| view_with_context(m, ctx))
}

/// What a check reports of a buffer and of files.
pub trait Check<D: Dictionary>: Sized {
    spec fn spec_check_filenames(&self) -> bool;

    spec fn spec_check_files(&self) -> bool;

    spec fn spec_binary(&self) -> bool;

    /// What the check reports of a text.
    spec fn spec_str_messages(&self, d: &D, tok: (bool, bool), text: Seq<char>) -> Seq<
        MessageView,
    >;

    /// What the check reports of a byte buffer.
    spec fn spec_bytes_messages(&self, d: &D, tok: (bool, bool), bytes: Seq<u8>) -> Seq<
        MessageView,
    >;

    /// What the check reports of a file at `path`, read as `content` (or failing to read).
    spec fn spec_file_messages(
        &self,
        d: &D,
        tok: (bool, bool),
        path: Seq<char>,
        explicit: bool,
        content: Result<Seq<u8>, Seq<char>>,
    ) -> Seq<MessageView>;

    /// Whether the check looks at what a file holds.
    spec fn spec_reads_content(&self) -> bool;

    fn check_str(&self, buffer: &str, tokenizer: &Tokenizer, dictionary: &D) -> (r: Vec<
        Message,
    >)
        requires
            byte_len(buffer@) <= usize::MAX,
        ensures
            messages_view(r@) == self.spec_str_messages(dictionary, tokenizer@, buffer@),
    ;

    fn check_bytes(&self, buffer: &[u8], tokenizer: &Tokenizer, dictionary: &D) -> (r: Vec<
        Message,
    >)
        ensures
            messages_view(r@) == self.spec_bytes_messages(dictionary, tokenizer@, buffer@),
    ;

    fn check_filenames(&self) -> (r: bool)
        ensures
            r == self.spec_check_filenames(),
    ;

    fn check_files(&self) -> (r: bool)
        ensures
            r == self.spec_check_files(),
    ;

    fn binary(&self) -> (r: bool)
        ensures
            r == self.spec_binary(),
    ;

    fn reads_content(&self) -> (r: bool)
        ensures
            r == self.spec_reads_content(),
    ;

    /// The messages for the file name `file_name` of `path`.
    fn check_filename(
        &self,
        path: &str,
        file_name: Option<&str>,
        tokenizer: &Tokenizer,
        dictionary: &D,
    ) -> (r: Vec<Message>)
        requires
            file_name matches Some(n) ==> byte_len(n@) <= usize::MAX,
        ensures
            messages_view(r@) == if !self.spec_check_filenames() {
                Seq::<MessageView>::empty()
            } else {
                match file_name {
                    Some(n) => in_context(
                        self.spec_str_messages(dictionary, tokenizer@, n@),
                        Some(ContextView::Path(path@)),
                    ),
                    None => Seq::<MessageView>::empty(),
                }
            },
    ;

    /// The messages for the file at `path`, given what reading it gave when the check reads
    /// content (an error's text on failure).
    fn check_file(
        &self,
        path: &str,
        explicit: bool,
        content: Result<Vec<u8>, String>,
        tokenizer: &Tokenizer,
        dictionary: &D,
    ) -> (r: Vec<Message>)
        ensures
            messages_view(r@) == self.spec_file_messages(
                dictionary,
                tokenizer@,
                path@,
                explicit,
                content_view(content),
            ),
    ;
}

pub open spec fn opt_str_view(s: Option<&str>) -> Option<Seq<char>> {
    match s {
        Some(s) => Some(s@),
        None => None,
    }
}

pub open spec fn content_view(content: Result<Vec<u8>, String>) -> Result<Seq<u8>, Seq<char>> {
    match content {
        Ok(b) => Ok(b@),
        Err(e) => Err(e@),
    }
}

/// What a buffer check looks for.
#[derive(Debug, Clone, Copy, PartialEq, Eq, Structural)]
pub enum Scan {
    Typos,
    Identifiers,
    Words,
}

/// What a buffer check reports of a text.
pub open spec fn scan_str_messages<D: Dictionary>(scan: Scan, d: &D, tok: (bool, bool), text: Seq<char>) -> Seq<
    MessageView,
> {
    match scan {
        Scan::Typos => typo_messages(None, encode_utf8(text), spec_check_text(d, tok, text)),
        Scan::Identifiers => parse_messages(None, ParseKind::Word, spec_parse_text(tok, text)),
        Scan::Words => parse_messages(None, ParseKind::Word, words_from(spec_parse_text(tok, text), 0)),
    }
}

/// What a buffer check reports of a byte buffer.
pub open spec fn scan_bytes_messages<D: Dictionary>(scan: Scan, d: &D, tok: (bool, bool), bytes: Seq<u8>) -> Seq<
    MessageView,
> {
    match scan {
        Scan::Typos => typo_messages(None, bytes, spec_check_bytes(d, tok, bytes)),
        Scan::Identifiers => parse_messages(None, ParseKind::Word, spec_parse_bytes(tok, bytes)),
        Scan::Words => parse_messages(None, ParseKind::Word, words_from(spec_parse_bytes(tok, bytes), 0)),
    }
}

/// The messages of the lines `lines[k..]` of `buf`, each in the context of its 1-indexed
/// line of the file.
pub open spec fn lines_messages<D: Dictionary>(
    scan: Scan,
    d: &D,
    tok: (bool, bool),
    path: Seq<char>,
    buf: Seq<u8>,
    lines: Seq<(int, int)>,
    k: int,
) -> Seq<MessageView>
    decreases lines.len() - k,
{
    if k < 0 || k >= lines.len() {
        seq![]
    } else {
        in_context(
            scan_bytes_messages(scan, d, tok, buf.subrange(lines[k].0, lines[k].1)),
            Some(ContextView::File(path, k + 1)),
        ) + lines_messages(scan, d, tok, path, buf, lines, k + 1)
    }
}

/// What a check that reads files reports of one: a read error (then an empty buffer is
/// checked), a skipped binary file, or the messages of each line.
pub open spec fn read_file_messages<D: Dictionary>(
    scan: Scan,
    check_files: bool,
    binary: bool,
    d: &D,
    tok: (bool, bool),
    path: Seq<char>,
    explicit: bool,
    content: Result<Seq<u8>, Seq<char>>,
) -> Seq<MessageView> {
    if !check_files {
        seq![]
    } else {
        let errors = match content {
            Ok(_) => seq![],
            Err(e) => seq![MessageView::Error(None, e)],
        };
        let buf = match content {
            Ok(b) => b,
            Err(_) => seq![],
        };
        let content_type = spec_utf8_or_binary(spec_inspect(buf));
        errors + if !explicit && !binary && content_type == ContentType::Binary {
            seq![MessageView::BinaryFile(path)]
        } else {
            lines_messages(scan, d, tok, path, buf, line_spans(buf, 0), 0)
        }
    }
}

/// What a check reports of a file name: the messages of the name as a text, in the context
/// of the path; nothing when the check skips file names or the path has no name.
pub open spec fn filename_messages<D: Dictionary>(
    scan: Scan,
    check_filenames: bool,
    d: &D,
    tok: (bool, bool),
    path: Seq<char>,
    file_name: Option<Seq<char>>,
) -> Seq<MessageView> {
    if !check_filenames {
        seq![]
    } else {
        match file_name {
            Some(n) => in_context(scan_str_messages(scan, d, tok, n), Some(ContextView::Path(path))),
            None => seq![],
        }
    }
}

// ---------------------------------------------------------------------------------------
// Settings
// ---------------------------------------------------------------------------------------

/// Which parts of files the checks look at.
#[derive(Debug, Clone, PartialEq, Eq)]
pub struct TyposSettings {
    check_filenames: bool,
    check_files: bool,
    binary: bool,
}

impl View for TyposSettings {
    /// `(check_filenames, check_files, binary)`.
    type V = (bool, bool, bool);

    closed spec fn view(&self) -> (bool, bool, bool) {
        (self.check_filenames, self.check_files, self.binary)
    }
}

impl Default for TyposSettings {
    /// File names and files are checked; binary files are not.
    fn default() -> (r: TyposSettings)
        ensures
            r@ == (true, true, false),
    {
        TyposSettings { check_filenames: true, check_files: true, binary: false }
    }
}

impl TyposSettings {
    pub fn new() -> (r: TyposSettings)
        ensures
            r@ == (true, true, false),
    {
        TyposSettings::default()
    }

    pub fn check_filenames(&mut self, yes: bool) -> (r: &mut Self)
        ensures
            r@ == (yes, old(self)@.1, old(self)@.2),
            final(self)@ == final(r)@,
    {
        self.check_filenames = yes;
        self
    }

    pub fn check_files(&mut self, yes: bool) -> (r: &mut Self)
        ensures
            r@ == (old(self)@.0, yes, old(self)@.2),
            final(self)@ == final(r)@,
    {
        self.check_files = yes;
        self
    }

    pub fn binary(&mut self, yes: bool) -> (r: &mut Self)
        ensures
            r@ == (old(self)@.0, old(self)@.1, yes),
            final(self)@ == final(r)@,
    {
        self.binary = yes;
        self
    }

    pub fn build_typos(&self) -> (r: Typos)
        ensures
            r@ == self@,
    {
        Typos {
            check_filenames: self.check_filenames,
            check_files: self.check_files,
            binary: self.binary,
        }
    }

    pub fn build_identifier_parser(&self) -> (r: ParseIdentifiers)
        ensures
            r@ == self@,
    {
        ParseIdentifiers {
            check_filenames: self.check_filenames,
            check_files: self.check_files,
            binary: self.binary,
        }
    }

    pub fn build_word_parser(&self) -> (r: ParseWords)
        ensures
            r@ == self@,
    {
        ParseWords {
            check_filenames: self.check_filenames,
            check_files: self.check_files,
            binary: self.binary,
        }
    }

    pub fn build_files(&self) -> (r: Files) {
        Files {  }
    }
}

// ---------------------------------------------------------------------------------------
// The checks
// ---------------------------------------------------------------------------------------

/// Reports typos.
#[derive(Debug, Clone)]
pub struct Typos {
    check_filenames: bool,
    check_files: bool,
    binary: bool,
}

impl View for Typos {
    type V = (bool, bool, bool);

    closed spec fn view(&self) -> (bool, bool, bool) {
        (self.check_filenames, self.check_files, self.binary)
    }
}

/// Reports the identifiers found.
#[derive(Debug, Clone)]
pub struct ParseIdentifiers {
    check_filenames: bool,
    check_files: bool,
    binary: bool,
}

impl View for ParseIdentifiers {
    type V = (bool, bool, bool);

    closed spec fn view(&self) -> (bool, bool, bool) {
        (self.check_filenames, self.check_files, self.binary)
    }
}

/// Reports the words found.
#[derive(Debug, Clone)]
pub struct ParseWords {
    check_filenames: bool,
    check_files: bool,
    binary: bool,
}

impl View for ParseWords {
    type V = (bool, bool, bool);

    closed spec fn view(&self) -> (bool, bool, bool) {
        (self.check_filenames, self.check_files, self.binary)
    }
}

/// Reports the files that would be checked.
#[derive(Debug, Clone)]
pub struct Files {}

/// A copy of an optional context.
pub fn clone_context_opt(c: &Option<Context>) -> (r: Option<Context>)
    ensures
        opt_context_view(r) == opt_context_view(*c),
{
    match c {
        Some(c) => Some(c.clone()),
        None => None,
    }
}

/// A message for each typo, with the given context and buffer.
fn typo_message_list(ctx: &Option<Context>, buffer: &[u8], typos: &Vec<Typo>) -> (r: Vec<Message>)
    ensures
        messages_view(r@) == typo_messages(opt_context_view(*ctx), buffer@, typos_view(typos@)),
{
    let ghost tv = typos_view(typos@);
    let mut r: Vec<Message> = Vec::new();
    let mut k: usize = 0;
    while k < typos.len()
        invariant
            k <= typos@.len(),
            tv == typos_view(typos@),
            messages_view(r@) == typo_messages(opt_context_view(*ctx), buffer@, tv.take(k as int)),
        decreases typos@.len() - k,
    {
        let t = &typos[k];
        let m = Message::Typo(
            TypoMessage {
                context: clone_context_opt(ctx),
                buffer: slice_to_vec(buffer),
                byte_offset: t.byte_offset,
                typo: t.typo.clone(),
                corrections: t.corrections.borrow(),
            },
        );
        let ghost before = messages_view(r@);
        r.push(m);
        assert(tv[k as int] == t@);
        assert(tv.take(k + 1) =~= tv.take(k as int).push(tv[k as int]));
        assert(messages_view(r@) =~= before.push(m@));
        assert(typo_messages(opt_context_view(*ctx), buffer@, tv.take(k + 1)) =~= typo_messages(
            opt_context_view(*ctx),
            buffer@,
            tv.take(k as int),
        ).push(m@));
        k = k + 1;
    }
    assert(tv.take(k as int) =~= tv);
    r
}

/// A message for each term, with no context.
fn parse_message_list(kind: ParseKind, terms: &Vec<Identifier>) -> (r: Vec<Message>)
    ensures
        messages_view(r@) == parse_messages(None, kind, idents_view(terms@)),
{
    let ghost tv = idents_view(terms@);
    let mut r: Vec<Message> = Vec::new();
    let mut k: usize = 0;
    while k < terms.len()
        invariant
            k <= terms@.len(),
            tv == idents_view(terms@),
            messages_view(r@) == parse_messages(None, kind, tv.take(k as int)),
        decreases terms@.len() - k,
    {
        let token = terms[k].token().to_owned();
        let mut data: Vec<String> = Vec::new();
        data.push(token);
        let m = Message::Parse(Parse { context: None, kind, data });
        let ghost before = messages_view(r@);
        r.push(m);
        assert(tv[k as int] == terms@[k as int]@);
        assert(strings_view(data@) =~= seq![tv[k as int].0]);
        assert(m@ == MessageView::Parse(None, kind, seq![tv[k as int].0]));
        assert(tv.take(k + 1) =~= tv.take(k as int).push(tv[k as int]));
        assert(messages_view(r@) =~= before.push(m@));
        assert(parse_messages(None, kind, tv.take(k + 1)) =~= parse_messages(None, kind, tv.take(k as int)).push(m@));
        k = k + 1;
    }
    assert(tv.take(k as int) =~= tv);
    r
}

/// A message for each word, with no context.
fn word_message_list(kind: ParseKind, terms: &Vec<Word>) -> (r: Vec<Message>)
    ensures
        messages_view(r@) == parse_messages(None, kind, words_view(terms@)),
{
    let ghost tv = words_view(terms@);
    let mut r: Vec<Message> = Vec::new();
    let mut k: usize = 0;
    while k < terms.len()
        invariant
            k <= terms@.len(),
            tv == words_view(terms@),
            messages_view(r@) == parse_messages(None, kind, tv.take(k as int)),
        decreases terms@.len() - k,
    {
        let token = terms[k].token().to_owned();
        let mut data: Vec<String> = Vec::new();
        data.push(token);
        let m = Message::Parse(Parse { context: None, kind, data });
        let ghost before = messages_view(r@);
        r.push(m);
        assert(tv[k as int] == terms@[k as int]@);
        assert(strings_view(data@) =~= seq![tv[k as int].0]);
        assert(m@ == MessageView::Parse(None, kind, seq![tv[k as int].0]));
        assert(tv.take(k + 1) =~= tv.take(k as int).push(tv[k as int]));
        assert(messages_view(r@) =~= before.push(m@));
        assert(parse_messages(None, kind, tv.take(k + 1)) =~= parse_messages(None, kind, tv.take(k as int)).push(m@));
        k = k + 1;
    }
    assert(tv.take(k as int) =~= tv);
    r
}

/// The messages, each given the context.
fn in_context_list(msgs: Vec<Message>, ctx: &Option<Context>) -> (r: Vec<Message>)
    ensures
        messages_view(r@) == in_context(messages_view(msgs@), opt_context_view(*ctx)),
{
    broadcast use vstd::std_specs::vec::axiom_spec_into_iter;
    let ghost mv = messages_view(msgs@);
    let ghost cv = opt_context_view(*ctx);
    let mut r: Vec<Message> = Vec::new();
    for m in iter: msgs.into_iter()
        invariant
            iter.seq() == msgs@,
            mv == messages_view(msgs@),
            cv == opt_context_view(*ctx),
            messages_view(r@) == in_context(mv.take(iter.index() as int), cv),
    {
        let ghost before = messages_view(r@);
        let ghost mm = m@;
        let ghost i = iter.index();
        let cc = clone_context_opt(ctx);
        let c = m.context(cc);
        r.push(c);
        assert(mv[i as int] == mm);
        assert(mv.take(i + 1) =~= mv.take(i as int).push(mv[i as int]));
        assert(messages_view(r@) =~= before.push(c@));
        assert(in_context(mv.take(i + 1), cv) =~= in_context(mv.take(i as int), cv).push(c@));
    }
    assert(mv.take(msgs@.len() as int) =~= mv);
    r
}

/// What a buffer check reports of a text.
fn scan_str<D: Dictionary>(scan: Scan, buffer: &str, tokenizer: &Tokenizer, d: &D) -> (r: Vec<Message>)
    requires
        byte_len(buffer@) <= usize::MAX,
    ensures
        messages_view(r@) == scan_str_messages(scan, d, tokenizer@, buffer@),
{
    match scan {
        Scan::Typos => {
            let typos = check_str(buffer, tokenizer, d);
            typo_message_list(&None, buffer.as_bytes(), &typos)
        },
        Scan::Identifiers => {
            let idents = tokenizer.parse_str(buffer);
            parse_message_list(ParseKind::Word, &idents)
        },
        Scan::Words => {
            let idents = tokenizer.parse_str(buffer);
            let words = split_all(&idents);
            word_message_list(ParseKind::Word, &words)
        },
    }
}

/// What a buffer check reports of a byte buffer.
fn scan_bytes<D: Dictionary>(scan: Scan, buffer: &[u8], tokenizer: &Tokenizer, d: &D) -> (r: Vec<Message>)
    ensures
        messages_view(r@) == scan_bytes_messages(scan, d, tokenizer@, buffer@),
{
    match scan {
        Scan::Typos => {
            let typos = check_bytes(buffer, tokenizer, d);
            typo_message_list(&None, buffer, &typos)
        },
        Scan::Identifiers => {
            let idents = tokenizer.parse_bytes(buffer);
            parse_message_list(ParseKind::Word, &idents)
        },
        Scan::Words => {
            let idents = tokenizer.parse_bytes(buffer);
            let words = split_all(&idents);
            word_message_list(ParseKind::Word, &words)
        },
    }
}

/// The messages of each line of `buf`, each in the context of its 1-indexed line.
fn lines_message_list<D: Dictionary>(
    scan: Scan,
    path: &str,
    buf: &[u8],
    tokenizer: &Tokenizer,
    d: &D,
) -> (r: Vec<Message>)
    ensures
        messages_view(r@) == lines_messages(scan, d, tokenizer@, path@, buf@, line_spans(buf@, 0), 0),
{
    let spans = lines(buf);
    let ghost sv = line_spans(buf@, 0);
    proof {
        lemma_line_spans_bounds(buf@, 0);
    }
    let mut r: Vec<Message> = Vec::new();
    let mut k: usize = 0;
    while k < spans.len()
        invariant
            k <= spans@.len(),
            sv == line_spans(buf@, 0),
            spans@.map_values(|p: (usize, usize)| (p.0 as int, p.1 as int)) == sv,
            forall|i: int| 0 <= i < sv.len() ==> 0 <= (#[trigger] sv[i]).0 <= sv[i].1 <= buf@.len(),
            messages_view(r@) + lines_messages(scan, d, tokenizer@, path@, buf@, sv, k as int)
                == lines_messages(scan, d, tokenizer@, path@, buf@, sv, 0),
        decreases spans@.len() - k,
    {
        let (start, end) = spans[k];
        assert(sv[k as int] == (start as int, end as int));
        let line = &buf[start..end];
        let msgs = scan_bytes(scan, line, tokenizer, d);
        let ctx = Some(Context::File(FileContext { path: path.to_owned(), line_num: k + 1 }));
        let mut ms = in_context_list(msgs, &ctx);
        let ghost before = messages_view(r@);
        let ghost added = messages_view(ms@);
        r.append(&mut ms);
        assert(messages_view(r@) =~= before + added);
        assert(lines_messages(scan, d, tokenizer@, path@, buf@, sv, k as int) == added
            + lines_messages(scan, d, tokenizer@, path@, buf@, sv, k + 1));
        k = k + 1;
    }
    assert(lines_messages(scan, d, tokenizer@, path@, buf@, sv, k as int) =~= Seq::<MessageView>::empty());
    assert(messages_view(r@) =~= lines_messages(scan, d, tokenizer@, path@, buf@, sv, 0));
    r
}

/// The messages of a check that reads files, for the file at `path` read as `content`.
fn read_file_message_list<D: Dictionary>(
    scan: Scan,
    check_files: bool,
    binary: bool,
    path: &str,
    explicit: bool,
    content: Result<Vec<u8>, String>,
    tokenizer: &Tokenizer,
    d: &D,
) -> (r: Vec<Message>)
    ensures
        messages_view(r@) == read_file_messages(
            scan,
            check_files,
            binary,
            d,
            tokenizer@,
            path@,
            explicit,
            content_view(content),
        ),
{
    let mut r: Vec<Message> = Vec::new();
    if !check_files {
        return r;
    }
    let buffer = match content {
        Ok(b) => b,
        Err(e) => {
            r.push(Message::Error(Error { context: None, msg: e }));
            Vec::new()
        },
    };
    let ghost errors = messages_view(r@);
    let (buffer, content_type) = massage_data(buffer);
    if !explicit && !binary && content_type.is_binary() {
        r.push(Message::BinaryFile(BinaryFile { path: path.to_owned() }));
        assert(messages_view(r@) =~= errors + seq![MessageView::BinaryFile(path@)]);
    } else {
        let mut ms = lines_message_list(scan, path, buffer.as_slice(), tokenizer, d);
        let ghost added = messages_view(ms@);
        r.append(&mut ms);
        assert(messages_view(r@) =~= errors + added);
    }
    r
}

/// The messages for the file name of `path`, when the check looks at file names.
fn filename_message_list<D: Dictionary>(
    scan: Scan,
    check_filenames: bool,
    path: &str,
    file_name: Option<&str>,
    tokenizer: &Tokenizer,
    d: &D,
) -> (r: Vec<Message>)
    requires
        file_name matches Some(n) ==> byte_len(n@) <= usize::MAX,
    ensures
        messages_view(r@) == filename_messages(
            scan,
            check_filenames,
            d,
            tokenizer@,
            path@,
            opt_str_view(file_name),
        ),
{
    if !check_filenames {
        return Vec::new();
    }
    match file_name {
        Some(n) => {
            let msgs = scan_str(scan, n, tokenizer, d);
            let ctx = Some(Context::Path(PathContext { path: path.to_owned() }));
            in_context_list(msgs, &ctx)
        },
        None => Vec::new(),
    }
}

impl<D: Dictionary> Check<D> for Typos {
    open spec fn spec_check_filenames(&self) -> bool {
        self@.0
    }

    open spec fn spec_check_files(&self) -> bool {
        self@.1
    }

    open spec fn spec_binary(&self) -> bool {
        self@.2
    }

    open spec fn spec_str_messages(&self, d: &D, tok: (bool, bool), text: Seq<char>) -> Seq<
        MessageView,
    > {
        scan_str_messages(Scan::Typos, d, tok, text)
    }

    open spec fn spec_bytes_messages(&self, d: &D, tok: (bool, bool), bytes: Seq<u8>) -> Seq<
        MessageView,
    > {
        scan_bytes_messages(Scan::Typos, d, tok, bytes)
    }

    open spec fn spec_file_messages(
        &self,
        d: &D,
        tok: (bool, bool),
        path: Seq<char>,
        explicit: bool,
        content: Result<Seq<u8>, Seq<char>>,
    ) -> Seq<MessageView> {
        read_file_messages(Scan::Typos, self@.1, self@.2, d, tok, path, explicit, content)
    }

    open spec fn spec_reads_content(&self) -> bool {
        self@.1
    }

    fn check_str(&self, buffer: &str, tokenizer: &Tokenizer, dictionary: &D) -> (r: Vec<
        Message,
    >) {
        scan_str(Scan::Typos, buffer, tokenizer, dictionary)
    }

    fn check_bytes(&self, buffer: &[u8], tokenizer: &Tokenizer, dictionary: &D) -> (r: Vec<
        Message,
    >) {
        scan_bytes(Scan::Typos, buffer, tokenizer, dictionary)
    }

    fn check_filenames(&self) -> (r: bool) {
        self.check_filenames
    }

    fn check_files(&self) -> (r: bool) {
        self.check_files
    }

    fn binary(&self) -> (r: bool) {
        self.binary
    }

    fn reads_content(&self) -> (r: bool) {
        self.check_files
    }

    fn check_filename(
        &self,
        path: &str,
        file_name: Option<&str>,
        tokenizer: &Tokenizer,
        dictionary: &D,
    ) -> (r: Vec<Message>) {
        filename_message_list(Scan::Typos, self.check_filenames, path, file_name, tokenizer, dictionary)
    }

    fn check_file(
        &self,
        path: &str,
        explicit: bool,
        content: Result<Vec<u8>, String>,
        tokenizer: &Tokenizer,
        dictionary: &D,
    ) -> (r: Vec<Message>) {
        read_file_message_list(
            Scan::Typos,
            self.check_files,
            self.binary,
            path,
            explicit,
            content,
            tokenizer,
            dictionary,
        )
    }
}

impl<D: Dictionary> Check<D> for ParseIdentifiers {
    open spec fn spec_check_filenames(&self) -> bool {
        self@.0
    }

    open spec fn spec_check_files(&self) -> bool {
        self@.1
    }

    open spec fn spec_binary(&self) -> bool {
        self@.2
    }

    open spec fn spec_str_messages(&self, d: &D, tok: (bool, bool), text: Seq<char>) -> Seq<
        MessageView,
    > {
        scan_str_messages(Scan::Identifiers, d, tok, text)
    }

    open spec fn spec_bytes_messages(&self, d: &D, tok: (bool, bool), bytes: Seq<u8>) -> Seq<
        MessageView,
    > {
        scan_bytes_messages(Scan::Identifiers, d, tok, bytes)
    }

    open spec fn spec_file_messages(
        &self,
        d: &D,
        tok: (bool, bool),
        path: Seq<char>,
        explicit: bool,
        content: Result<Seq<u8>, Seq<char>>,
    ) -> Seq<MessageView> {
        read_file_messages(Scan::Identifiers, self@.1, self@.2, d, tok, path, explicit, content)
    }

    open spec fn spec_reads_content(&self) -> bool {
        self@.1
    }

    fn check_str(&self, buffer: &str, tokenizer: &Tokenizer, dictionary: &D) -> (r: Vec<
        Message,
    >) {
        scan_str(Scan::Identifiers, buffer, tokenizer, dictionary)
    }

    fn check_bytes(&self, buffer: &[u8], tokenizer: &Tokenizer, dictionary: &D) -> (r: Vec<
        Message,
    >) {
        scan_bytes(Scan::Identifiers, buffer, tokenizer, dictionary)
    }

    fn check_filenames(&self) -> (r: bool) {
        self.check_filenames
    }

    fn check_files(&self) -> (r: bool) {
        self.check_files
    }

    fn binary(&self) -> (r: bool) {
        self.binary
    }

    fn reads_content(&self) -> (r: bool) {
        self.check_files
    }

    fn check_filename(
        &self,
        path: &str,
        file_name: Option<&str>,
        tokenizer: &Tokenizer,
        dictionary: &D,
    ) -> (r: Vec<Message>) {
        filename_message_list(Scan::Identifiers, self.check_filenames, path, file_name, tokenizer, dictionary)
    }

    fn check_file(
        &self,
        path: &str,
        explicit: bool,
        content: Result<Vec<u8>, String>,
        tokenizer: &Tokenizer,
        dictionary: &D,
    ) -> (r: Vec<Message>) {
        read_file_message_list(
            Scan::Identifiers,
            self.check_files,
            self.binary,
            path,
            explicit,
            content,
            tokenizer,
            dictionary,
        )
    }
}

impl<D: Dictionary> Check<D> for ParseWords {
    open spec fn spec_check_filenames(&self) -> bool {
        self@.0
    }

    open spec fn spec_check_files(&self) -> bool {
        self@.1
    }

    open spec fn spec_binary(&self) -> bool {
        self@.2
    }

    open spec fn spec_str_messages(&self, d: &D, tok: (bool, bool), text: Seq<char>) -> Seq<
        MessageView,
    > {
        scan_str_messages(Scan::Words, d, tok, text)
    }

    open spec fn spec_bytes_messages(&self, d: &D, tok: (bool, bool), bytes: Seq<u8>) -> Seq<
        MessageView,
    > {
        scan_bytes_messages(Scan::Words, d, tok, bytes)
    }

    open spec fn spec_file_messages(
        &self,
        d: &D,
        tok: (bool, bool),
        path: Seq<char>,
        explicit: bool,
        content: Result<Seq<u8>, Seq<char>>,
    ) -> Seq<MessageView> {
        read_file_messages(Scan::Words, self@.1, self@.2, d, tok, path, explicit, content)
    }

    open spec fn spec_reads_content(&self) -> bool {
        self@.1
    }

    fn check_str(&self, buffer: &str, tokenizer: &Tokenizer, dictionary: &D) -> (r: Vec<
        Message,
    >) {
        scan_str(Scan::Words, buffer, tokenizer, dictionary)
    }

    fn check_bytes(&self, buffer: &[u8], tokenizer: &Tokenizer, dictionary: &D) -> (r: Vec<
        Message,
    >) {
        scan_bytes(Scan::Words, buffer, tokenizer, dictionary)
    }

    fn check_filenames(&self) -> (r: bool) {
        self.check_filenames
    }

    fn check_files(&self) -> (r: bool) {
        self.check_files
    }

    fn binary(&self) -> (r: bool) {
        self.binary
    }

    fn reads_content(&self) -> (r: bool) {
        self.check_files
    }

    fn check_filename(
        &self,
        path: &str,
        file_name: Option<&str>,
        tokenizer: &Tokenizer,
        dictionary: &D,
    ) -> (r: Vec<Message>) {
        filename_message_list(Scan::Words, self.check_filenames, path, file_name, tokenizer, dictionary)
    }

    fn check_file(
        &self,
        path: &str,
        explicit: bool,
        content: Result<Vec<u8>, String>,
        tokenizer: &Tokenizer,
        dictionary: &D,
    ) -> (r: Vec<Message>) {
        read_file_message_list(
            Scan::Words,
            self.check_files,
            self.binary,
            path,
            explicit,
            content,
            tokenizer,
            dictionary,
        )
    }
}

impl<D: Dictionary> Check<D> for Files {
    /// File names are "checked": the check reports nothing of them.
    open spec fn spec_check_filenames(&self) -> bool {
        true
    }

    open spec fn spec_check_files(&self) -> bool {
        true
    }

    open spec fn spec_binary(&self) -> bool {
        true
    }

    open spec fn spec_str_messages(&self, d: &D, tok: (bool, bool), text: Seq<char>) -> Seq<
        MessageView,
    > {
        seq![]
    }

    open spec fn spec_bytes_messages(&self, d: &D, tok: (bool, bool), bytes: Seq<u8>) -> Seq<
        MessageView,
    > {
        seq![]
    }

    /// Each file is reported, unread.
    open spec fn spec_file_messages(
        &self,
        d: &D,
        tok: (bool, bool),
        path: Seq<char>,
        explicit: bool,
        content: Result<Seq<u8>, Seq<char>>,
    ) -> Seq<MessageView> {
        seq![MessageView::File(path)]
    }

    open spec fn spec_reads_content(&self) -> bool {
        false
    }

    fn check_str(&self, buffer: &str, tokenizer: &Tokenizer, dictionary: &D) -> (r: Vec<
        Message,
    >) {
        Vec::new()
    }

    fn check_bytes(&self, buffer: &[u8], tokenizer: &Tokenizer, dictionary: &D) -> (r: Vec<
        Message,
    >) {
        Vec::new()
    }

    fn check_filenames(&self) -> (r: bool) {
        true
    }

    fn check_files(&self) -> (r: bool) {
        true
    }

    fn binary(&self) -> (r: bool) {
        true
    }

    fn reads_content(&self) -> (r: bool) {
        false
    }

    fn check_filename(
        &self,
        path: &str,
        file_name: Option<&str>,
        tokenizer: &Tokenizer,
        dictionary: &D,
    ) -> (r: Vec<Message>) {
        let r = Vec::new();
        assert(in_context(Seq::<MessageView>::empty(), Some(ContextView::Path(path@))) =~= Seq::<MessageView>::empty());
        r
    }

    fn check_file(
        &self,
        path: &str,
        explicit: bool,
        content: Result<Vec<u8>, String>,
        tokenizer: &Tokenizer,
        dictionary: &D,
    ) -> (r: Vec<Message>) {
        let mut r = Vec::new();
        r.push(Message::File(File { path: path.to_owned() }));
        assert(messages_view(r@) =~= seq![MessageView::File(path@)]);
        r
    }
}

} // verus!
