//! Messages about what a check found, and the interface that receives them.

use vstd::prelude::*;

use vstd::string::StringExecFns;

use crate::decimal::{decimal, to_decimal};
use crate::dict::{Status, StatusView};

verus! {

/// Declares `std::io::Error` to Verus; an I/O error is opaque here.
#[verifier::external_type_specification]
#[verifier::external_body]
pub struct ExIoError(std::io::Error);

/// Where a message comes from.
#[derive(Debug, PartialEq, Eq)]
pub enum Context {
    File(FileContext),
    Path(PathContext),
}

/// A context as plain values: a file's path and line, or a path.
pub enum ContextView {
    File(Seq<char>, int),
    Path(Seq<char>),
}

impl View for Context {
    type V = ContextView;

    open spec fn view(&self) -> ContextView {
        match self {
            Context::File(c) => ContextView::File(c.path@, c.line_num as int),
            Context::Path(c) => ContextView::Path(c.path@),
        }
    }
}

impl Clone for Context {
    fn clone(&self) -> (r: Context)
        ensures
            r@ == self@,
    {
        match self {
            Context::File(c) => Context::File(FileContext { path: c.path.clone(), line_num: c.line_num }),
            Context::Path(c) => Context::Path(PathContext { path: c.path.clone() }),
        }
    }
}

pub open spec fn opt_context_view(c: Option<Context>) -> Option<ContextView> {
    match c {
        Some(c) => Some(c@),
        None => None,
    }
}

/// How a context is shown: `path:line` for a line of a file, the path for a file name.
pub open spec fn spec_context_display(c: ContextView) -> Seq<char> {
    match c {
        ContextView::File(path, line) => path + seq![':'] + decimal(line as nat),
        ContextView::Path(path) => path,
    }
}

impl Context {
    /// The text that locates the message.
    pub fn display(&self) -> (r: String)
        ensures
            r@ == spec_context_display(self@),
    {
        match self {
            Context::File(c) => {
                let mut r = c.path.clone();
                r.append(":");
                let n = to_decimal(c.line_num);
                r.append(n.as_str());
                proof {
                    reveal_strlit(":");
                }
                r
            },
            Context::Path(c) => c.path.clone(),
        }
    }
}

/// A line of a file.
#[derive(Debug, Clone, PartialEq, Eq)]
pub struct FileContext {
    pub path: String,
    pub line_num: usize,
}

/// A file name.
#[derive(Debug, Clone, PartialEq, Eq)]
pub struct PathContext {
    pub path: String,
}

/// A binary file that was skipped.
#[derive(Debug, Clone, PartialEq, Eq)]
pub struct BinaryFile {
    pub path: String,
}

/// A typo, with the line (or file name) it was found in.
#[derive(Debug, PartialEq, Eq)]
pub struct Typo {
    pub context: Option<Context>,
    pub buffer: Vec<u8>,
    pub byte_offset: usize,
    pub typo: String,
    pub corrections: Status,
}

/// The type that a file was taken for.
#[derive(Debug, Clone, PartialEq, Eq)]
pub struct FileType {
    pub path: String,
    pub file_type: Option<String>,
}

/// A file that would be checked.
#[derive(Debug, Clone, PartialEq, Eq)]
pub struct File {
    pub path: String,
}

/// What a parse reports.
#[derive(Debug, Clone, Copy, PartialEq, Eq, Structural)]
pub enum ParseKind {
    Identifier,
    Word,
}

/// A term found while parsing.
#[derive(Debug, Clone, PartialEq, Eq)]
pub struct Parse {
    pub context: Option<Context>,
    pub kind: ParseKind,
    pub data: String,
}

/// An error met while checking.
#[derive(Debug, Clone, PartialEq, Eq)]
pub struct Error {
    pub context: Option<Context>,
    pub msg: String,
}

/// A message from a check.
#[derive(Debug, PartialEq, Eq)]
pub enum Message {
    BinaryFile(BinaryFile),
    Typo(Typo),
    FileType(FileType),
    File(File),
    Parse(Parse),
    Error(Error),
}

impl Typo {
    /// The same typo with the given context.
    pub fn context(self, context: Option<Context>) -> (r: Typo)
        ensures
            r == (Typo { context, ..self }),
    {
        Typo { context, ..self }
    }
}

impl Parse {
    /// The same parse with the given context.
    pub fn context(self, context: Option<Context>) -> (r: Parse)
        ensures
            r == (Parse { context, ..self }),
    {
        Parse { context, ..self }
    }
}

impl Error {
    /// An error with the given message and no context.
    pub fn new(msg: String) -> (r: Error)
        ensures
            r == (Error { context: None, msg }),
    {
        Error { context: None, msg }
    }

    /// The same error with the given context.
    pub fn context(self, context: Option<Context>) -> (r: Error)
        ensures
            r == (Error { context, ..self }),
    {
        Error { context, ..self }
    }
}

impl FileType {
    pub fn new(path: String, file_type: Option<String>) -> (r: FileType)
        ensures
            r == (FileType { path, file_type }),
    {
        FileType { path, file_type }
    }
}

impl File {
    pub fn new(path: String) -> (r: File)
        ensures
            r == (File { path }),
    {
        File { path }
    }
}

/// A typo message as plain values.
pub struct TypoMessageView {
    pub context: Option<ContextView>,
    pub buffer: Seq<u8>,
    pub byte_offset: int,
    pub typo: Seq<char>,
    pub corrections: StatusView,
}

impl View for Typo {
    type V = TypoMessageView;

    open spec fn view(&self) -> TypoMessageView {
        TypoMessageView {
            context: opt_context_view(self.context),
            buffer: self.buffer@,
            byte_offset: self.byte_offset as int,
            typo: self.typo@,
            corrections: self.corrections@,
        }
    }
}

/// A message as plain values.
pub enum MessageView {
    BinaryFile(Seq<char>),
    Typo(TypoMessageView),
    FileType(Seq<char>, Option<Seq<char>>),
    File(Seq<char>),
    Parse(Option<ContextView>, ParseKind, Seq<char>),
    Error(Option<ContextView>, Seq<char>),
}

pub open spec fn opt_string_view(s: Option<String>) -> Option<Seq<char>> {
    match s {
        Some(s) => Some(s@),
        None => None,
    }
}

impl View for Message {
    type V = MessageView;

    open spec fn view(&self) -> MessageView {
        match self {
            Message::BinaryFile(m) => MessageView::BinaryFile(m.path@),
            Message::Typo(m) => MessageView::Typo(m@),
            Message::FileType(m) => MessageView::FileType(m.path@, opt_string_view(m.file_type)),
            Message::File(m) => MessageView::File(m.path@),
            Message::Parse(m) => MessageView::Parse(opt_context_view(m.context), m.kind, m.data@),
            Message::Error(m) => MessageView::Error(opt_context_view(m.context), m.msg@),
        }
    }
}

pub open spec fn messages_view(v: Seq<Message>) -> Seq<MessageView> {
    v.map_values(|m: Message| m@)
}

/// Whether a message reports a typo: a term the dictionary does not take as valid.
pub open spec fn spec_is_typo(msg: &Message) -> bool {
    match msg {
        Message::Typo(t) => !(t.corrections@ is Valid),
        _ => false,
    }
}

pub open spec fn spec_is_error(msg: &Message) -> bool {
    msg is Error
}

/// The message with its context replaced, for the messages that carry one.
pub open spec fn spec_with_context(msg: Message, context: Option<Context>) -> Message {
    match msg {
        Message::Typo(t) => Message::Typo(Typo { context, ..t }),
        Message::Parse(p) => Message::Parse(Parse { context, ..p }),
        Message::Error(e) => Message::Error(Error { context, ..e }),
        _ => msg,
    }
}

impl Message {
    pub fn is_typo(&self) -> (r: bool)
        ensures
            r == spec_is_typo(self),
    {
        match self {
            Message::BinaryFile(_) => false,
            Message::Typo(c) => !c.corrections.is_valid(),
            Message::FileType(_) => false,
            Message::File(_) => false,
            Message::Parse(_) => false,
            Message::Error(_) => false,
        }
    }

    pub fn is_error(&self) -> (r: bool)
        ensures
            r == spec_is_error(self),
    {
        match self {
            Message::BinaryFile(_) => false,
            Message::Typo(_) => false,
            Message::FileType(_) => false,
            Message::File(_) => false,
            Message::Parse(_) => false,
            Message::Error(_) => true,
        }
    }

    /// The message with the given context, for typos, parses and errors.
    pub fn context(self, context: Option<Context>) -> (r: Message)
        ensures
            r == spec_with_context(self, context),
    {
        match self {
            Message::Typo(typo) => Message::Typo(typo.context(context)),
            Message::Parse(parse) => Message::Parse(parse.context(context)),
            Message::Error(error) => Message::Error(error.context(context)),
            _ => self,
        }
    }
}

/// Receives the messages of a check.
pub trait Report {
    fn report(&mut self, msg: Message) -> Result<(), std::io::Error>;

    fn generate_final_result(&mut self) -> Result<(), std::io::Error>;
}

} // verus!
