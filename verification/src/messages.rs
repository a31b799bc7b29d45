//! Messages of the buffer checks, and a reporter that records whether typos or errors
//! were seen.

use vstd::prelude::*;

use crate::report::{
    opt_context_view, BinaryFile, Context, ContextView, Error, File, ParseKind, Typo,
    TypoMessageView,
};

verus! {

/// The terms that a parse found.
#[derive(Debug, Clone, PartialEq, Eq)]
pub struct Parse {
    pub context: Option<Context>,
    pub kind: ParseKind,
    pub data: Vec<String>,
}

impl Parse {
    /// The same parse with the given context.
    pub fn context(self, context: Option<Context>) -> (r: Parse)
        ensures
            r == (Parse { context, ..self }),
    {
        Parse { context, ..self }
    }
}

/// A message of a buffer check as plain values.
pub enum MessageView {
    BinaryFile(Seq<char>),
    Typo(TypoMessageView),
    File(Seq<char>),
    Parse(Option<ContextView>, ParseKind, Seq<Seq<char>>),
    Error(Option<ContextView>, Seq<char>),
}

pub open spec fn strings_view(v: Seq<String>) -> Seq<Seq<char>> {
    v.map_values(|s: String| s@)
}

impl View for Message {
    type V = MessageView;

    open spec fn view(&self) -> MessageView {
        match self {
            Message::BinaryFile(m) => MessageView::BinaryFile(m.path@),
            Message::Typo(m) => MessageView::Typo(m@),
            Message::File(m) => MessageView::File(m.path@),
            Message::Parse(m) => MessageView::Parse(opt_context_view(m.context), m.kind, strings_view(m.data@)),
            Message::Error(m) => MessageView::Error(opt_context_view(m.context), m.msg@),
        }
    }
}

pub open spec fn messages_view(v: Seq<Message>) -> Seq<MessageView> {
    v.map_values(|m: Message| m@)
}

/// The message with its context replaced, for the messages that carry one.
pub open spec fn view_with_context(m: MessageView, c: Option<ContextView>) -> MessageView {
    match m {
        MessageView::Typo(t) => MessageView::Typo(TypoMessageView { context: c, ..t }),
        MessageView::Parse(_, k, d) => MessageView::Parse(c, k, d),
        MessageView::Error(_, s) => MessageView::Error(c, s),
        _ => m,
    }
}

/// A message from a buffer check.
#[derive(Debug, PartialEq, Eq)]
pub enum Message {
    BinaryFile(BinaryFile),
    Typo(Typo),
    File(File),
    Parse(Parse),
    Error(Error),
}

/// Whether a message suggests corrections.
pub open spec fn spec_is_correction(msg: &Message) -> bool {
    match msg {
        Message::Typo(t) => t.corrections@ is Corrections,
        _ => false,
    }
}

/// The message with its context replaced, for the messages that carry one.
pub open spec fn spec_with_context(msg: Message, context: Option<Context>) -> Message {
    match msg {
        Message::Typo(t) => Message::Typo(Typo { context, ..t }),
        Message::Parse(p) => Message::Parse(Parse { context, ..p }),
        Message::Error(e) => Message::Error(Error { context, ..e }),
        _ => msg,
    }
}

impl Message {
    pub fn is_correction(&self) -> (r: bool)
        ensures
            r == spec_is_correction(self),
    {
        match self {
            Message::BinaryFile(_) => false,
            Message::Typo(c) => c.corrections.is_correction(),
            Message::File(_) => false,
            Message::Parse(_) => false,
            Message::Error(_) => false,
        }
    }

    pub fn is_error(&self) -> (r: bool)
        ensures
            r == (self is Error),
    {
        match self {
            Message::BinaryFile(_) => false,
            Message::Typo(_) => false,
            Message::File(_) => false,
            Message::Parse(_) => false,
            Message::Error(_) => true,
        }
    }

    /// The message with the given context, for typos, parses and errors.
    pub fn context(self, context: Option<Context>) -> (r: Message)
        ensures
            r == spec_with_context(self, context),
            r@ == view_with_context(self@, opt_context_view(context)),
    {
        match self {
            Message::Typo(typo) => Message::Typo(typo.context(context)),
            Message::Parse(parse) => Message::Parse(parse.context(context)),
            Message::Error(error) => Message::Error(error.context(context)),
            _ => self,
        }
    }
}

/// Receives the messages of a buffer check.
pub trait Report {
    fn report(&mut self, msg: Message) -> Result<(), std::io::Error>;
}

/// The `(typos found, errors found)` flags after reporting `msgs` in order, starting from
/// `flags`: each message can set a flag, none clears one.
pub open spec fn flags_after(flags: (bool, bool), msgs: Seq<Message>) -> (bool, bool)
    decreases msgs.len(),
{
    if msgs.len() == 0 {
        flags
    } else {
        let f = flags_after(flags, msgs.drop_last());
        (f.0 || spec_is_correction(&msgs.last()), f.1 || msgs.last() is Error)
    }
}

/// Over any run of reports, the typos flag says whether some message suggested
/// corrections, and the errors flag whether some message was an error (or the flag was set
/// before the run): a flag, once set, stays set.
pub proof fn lemma_flags_over_reports(flags: (bool, bool), msgs: Seq<Message>)
    ensures
        flags_after(flags, msgs).0 == (flags.0 || exists|i: int|
            0 <= i < msgs.len() && spec_is_correction(&#[trigger] msgs[i])),
        flags_after(flags, msgs).1 == (flags.1 || exists|i: int|
            0 <= i < msgs.len() && (#[trigger] msgs[i]) is Error),
    decreases msgs.len(),
{
    if msgs.len() > 0 {
        let init = msgs.drop_last();
        lemma_flags_over_reports(flags, init);
        let n = msgs.len() - 1;
        assert(msgs[n] == msgs.last());
        if exists|i: int| 0 <= i < init.len() && spec_is_correction(&#[trigger] init[i]) {
            let i = choose|i: int| 0 <= i < init.len() && spec_is_correction(&#[trigger] init[i]);
            assert(msgs[i] == init[i]);
        }
        if exists|i: int| 0 <= i < init.len() && (#[trigger] init[i]) is Error {
            let i = choose|i: int| 0 <= i < init.len() && (#[trigger] init[i]) is Error;
            assert(msgs[i] == init[i]);
        }
        if exists|i: int| 0 <= i < msgs.len() && spec_is_correction(&#[trigger] msgs[i]) {
            let i = choose|i: int| 0 <= i < msgs.len() && spec_is_correction(&#[trigger] msgs[i]);
            if i < n {
                assert(init[i] == msgs[i]);
            }
        }
        if exists|i: int| 0 <= i < msgs.len() && (#[trigger] msgs[i]) is Error {
            let i = choose|i: int| 0 <= i < msgs.len() && (#[trigger] msgs[i]) is Error;
            if i < n {
                assert(init[i] == msgs[i]);
            }
        }
    }
}

/// Passes messages on, remembering whether any suggested corrections or was an error.
pub struct MessageStatus<R> {
    typos_found: bool,
    errors_found: bool,
    reporter: R,
}

impl<R: Report> MessageStatus<R> {
    pub closed spec fn spec_typos_found(&self) -> bool {
        self.typos_found
    }

    pub closed spec fn spec_errors_found(&self) -> bool {
        self.errors_found
    }

    /// Nothing seen yet.
    pub fn new(reporter: R) -> (r: MessageStatus<R>)
        ensures
            !r.spec_typos_found(),
            !r.spec_errors_found(),
    {
        MessageStatus { typos_found: false, errors_found: false, reporter }
    }

    pub fn typos_found(&self) -> (r: bool)
        ensures
            r == self.spec_typos_found(),
    {
        self.typos_found
    }

    pub fn errors_found(&self) -> (r: bool)
        ensures
            r == self.spec_errors_found(),
    {
        self.errors_found
    }

    /// Record what the message is, then pass it on.
    pub fn report(&mut self, msg: Message) -> (r: Result<(), std::io::Error>)
        ensures
            final(self).spec_typos_found() == (old(self).spec_typos_found() || spec_is_correction(&msg)),
            final(self).spec_errors_found() == (old(self).spec_errors_found() || (msg is Error)),
            (final(self).spec_typos_found(), final(self).spec_errors_found()) == flags_after(
                (old(self).spec_typos_found(), old(self).spec_errors_found()),
                seq![msg],
            ),
    {
        let ghost f0 = (self.typos_found, self.errors_found);
        if !self.typos_found {
            self.typos_found = msg.is_correction();
        }
        if !self.errors_found {
            self.errors_found = msg.is_error();
        }
        assert(seq![msg].drop_last() =~= Seq::<Message>::empty());
        assert(flags_after(f0, seq![msg].drop_last()) == f0);
        self.reporter.report(msg)
    }

    /// The reporter that messages are passed to.
    pub closed spec fn spec_reporter(&self) -> R {
        self.reporter
    }

    /// The reporter that messages are passed to.
    pub fn into_inner(self) -> (r: R)
        ensures
            r == self.spec_reporter(),
    {
        self.reporter
    }
}

/// Reports nothing.
#[derive(Debug, Default, Clone, Copy)]
pub struct PrintSilent;

impl Report for PrintSilent {
    fn report(&mut self, msg: Message) -> Result<(), std::io::Error> {
        Ok(())
    }
}

} // verus!
