//! The in-band structured error that every tool reports instead of failing out of band.
//!
//! An error carries a machine-readable [`ErrorCode`], a human message, an optional actionable
//! hint and a list of context entries (`kind`, `field`, `line`, ...). Its view, [`ErrorView`],
//! is what the contracts of the parsers and validators speak of.
use vstd::prelude::*;

use crate::text::{chars_of, string_of};

verus! {

/// The machine-readable error class.
#[derive(Debug, Clone, Copy, PartialEq, Eq, Structural)]
pub enum ErrorCode {
    /// The input was rejected before any work was done; the caller can fix it and retry.
    ValidationFailed,
    /// A server-side fault.
    InternalError,
    /// The addressed issue does not exist.
    IssueNotFound,
}

/// Whether a caller should retry after fixing its input.
pub open spec fn code_is_retryable(code: ErrorCode) -> bool {
    code == ErrorCode::ValidationFailed
}

/// The value of one context entry: a text or a count.
#[derive(Debug, Clone, PartialEq, Eq)]
pub enum ContextValue {
    Text(String),
    Number(u64),
}

/// The view of a context value.
pub enum ContextView {
    Text(Seq<char>),
    Number(nat),
}

impl View for ContextValue {
    type V = ContextView;

    open spec fn view(&self) -> ContextView {
        match self {
            ContextValue::Text(s) => ContextView::Text(s@),
            ContextValue::Number(n) => ContextView::Number(*n as nat),
        }
    }
}

/// One `key: value` context entry.
#[derive(Debug, Clone, PartialEq, Eq)]
pub struct ContextEntry {
    pub key: String,
    pub value: ContextValue,
}

/// A structured, in-band error.
#[derive(Debug, Clone, PartialEq, Eq)]
pub struct StructuredError {
    pub code: ErrorCode,
    pub message: String,
    pub hint: Option<String>,
    pub context: Vec<ContextEntry>,
    pub retryable: bool,
}

/// The view of a structured error.
pub struct ErrorView {
    pub code: ErrorCode,
    pub message: Seq<char>,
    pub hint: Option<Seq<char>>,
    pub context: Seq<(Seq<char>, ContextView)>,
    pub retryable: bool,
}

/// The view of an optional string.
pub open spec fn opt_view(o: Option<String>) -> Option<Seq<char>> {
    match o {
        Some(s) => Some(s@),
        None => None,
    }
}

/// The views of the strings of a vector.
pub open spec fn strings_view(v: Vec<String>) -> Seq<Seq<char>> {
    v@.map_values(|s: String| s@)
}

impl View for StructuredError {
    type V = ErrorView;

    open spec fn view(&self) -> ErrorView {
        ErrorView {
            code: self.code,
            message: self.message@,
            hint: opt_view(self.hint),
            context: self.context@.map_values(|e: ContextEntry| (e.key@, e.value@)),
            retryable: self.retryable,
        }
    }
}

/// The error of `code` with `message`, no hint and no context.
pub open spec fn error_of(code: ErrorCode, message: Seq<char>) -> ErrorView {
    ErrorView {
        code,
        message,
        hint: None,
        context: seq![],
        retryable: code_is_retryable(code),
    }
}

/// `e` with its hint set.
pub open spec fn with_hint(e: ErrorView, hint: Seq<char>) -> ErrorView {
    ErrorView { hint: Some(hint), ..e }
}

/// `e` with one more context entry.
pub open spec fn with_context(e: ErrorView, key: Seq<char>, value: ContextView) -> ErrorView {
    ErrorView { context: e.context.push((key, value)), ..e }
}

impl StructuredError {
    /// A new error of `code` whose message is the characters of `message`.
    pub fn from_code(code: ErrorCode, message: &Vec<char>) -> (e: StructuredError)
        ensures
            e@ == error_of(code, message@),
    {
        let e = StructuredError {
            code,
            message: string_of(message),
            hint: None,
            context: Vec::new(),
            retryable: code == ErrorCode::ValidationFailed,
        };
        assert(e@.context =~= Seq::<(Seq<char>, ContextView)>::empty());
        e
    }

    /// Set the hint.
    pub fn set_hint(&mut self, hint: &Vec<char>)
        ensures
            final(self)@ == with_hint(old(self)@, hint@),
    {
        self.hint = Some(string_of(hint));
    }

    /// Add a text context entry.
    pub fn add_text(&mut self, key: &str, value: &Vec<char>)
        ensures
            final(self)@ == with_context(old(self)@, key@, ContextView::Text(value@)),
    {
        let k = chars_of(key);
        let entry = ContextEntry { key: string_of(&k), value: ContextValue::Text(string_of(value)) };
        let ghost prev = self.context@;
        self.context.push(entry);
        assert(self.context@.map_values(|e: ContextEntry| (e.key@, e.value@)) =~= prev.map_values(
            |e: ContextEntry| (e.key@, e.value@),
        ).push((key@, ContextView::Text(value@))));
    }

    /// Add a text context entry whose value is the characters of `value`.
    pub fn add_text_str(&mut self, key: &str, value: &str)
        ensures
            final(self)@ == with_context(old(self)@, key@, ContextView::Text(value@)),
    {
        let v = chars_of(value);
        self.add_text(key, &v);
    }

    /// Add a numeric context entry.
    pub fn add_number(&mut self, key: &str, value: u64)
        ensures
            final(self)@ == with_context(old(self)@, key@, ContextView::Number(value as nat)),
    {
        let k = chars_of(key);
        let entry = ContextEntry { key: string_of(&k), value: ContextValue::Number(value) };
        let ghost prev = self.context@;
        self.context.push(entry);
        assert(self.context@.map_values(|e: ContextEntry| (e.key@, e.value@)) =~= prev.map_values(
            |e: ContextEntry| (e.key@, e.value@),
        ).push((key@, ContextView::Number(value as nat))));
    }

    /// The value of the first context entry named `key`.
    pub fn context_value(&self, key: &str) -> (r: Option<&ContextValue>)
        ensures
            r is Some ==> exists|i: int|
                0 <= i < self.context@.len() && self.context@[i].key@ == key@ && self.context@[i].value
                    == *r->0 && forall|j: int| 0 <= j < i ==> #[trigger] self.context@[j].key@ != key@,
            r is None ==> forall|i: int|
                0 <= i < self.context@.len() ==> self.context@[i].key@ != key@,
    {
        let k = chars_of(key);
        let mut i: usize = 0;
        while i < self.context.len()
            invariant
                k@ == key@,
                0 <= i <= self.context@.len(),
                forall|j: int| 0 <= j < i ==> self.context@[j].key@ != key@,
            decreases self.context@.len() - i,
        {
            let kc = chars_of(self.context[i].key.as_str());
            if crate::text::chars_eq(&kc, &k) {
                return Some(&self.context[i].value);
            }
            i = i + 1;
        }
        None
    }
}

/// The protocol-level error class of a tool failure.
#[derive(Debug, Clone, Copy, PartialEq, Eq, Structural)]
pub enum ToolErrorCode {
    /// The parameters were rejected.
    InvalidParams,
    /// A server-side fault.
    InternalError,
}

/// A protocol-level tool failure.
#[derive(Debug, Clone, PartialEq, Eq)]
pub struct ToolError {
    pub code: ToolErrorCode,
    pub message: String,
}

impl ToolError {
    /// A parameter validation failure with `message`.
    pub fn invalid_params(message: &Vec<char>) -> (e: ToolError)
        ensures
            e.code == ToolErrorCode::InvalidParams,
            e.message@ == message@,
    {
        ToolError { code: ToolErrorCode::InvalidParams, message: string_of(message) }
    }
}

} // verus!
