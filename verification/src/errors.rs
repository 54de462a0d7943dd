//! The diagnostics that the actor derivation reports.
use vstd::prelude::*;
use vstd::string::*;

verus! {

/// A diagnostic: a message attached to the node of the syntax it is about.
#[derive(Debug, PartialEq, Eq)]
pub struct MacroError {
    pub node: usize,
    pub message: String,
}

/// What a diagnostic says, as plain values.
pub struct ErrorView {
    pub node: usize,
    pub message: Seq<char>,
}

impl View for MacroError {
    type V = ErrorView;

    open spec fn view(&self) -> ErrorView {
        ErrorView { node: self.node, message: self.message@ }
    }
}

/// The diagnostic with `message` at `node`.
pub open spec fn error_view(node: usize, message: Seq<char>) -> ErrorView {
    ErrorView { node, message }
}

pub open spec fn msg_not_struct_impl() -> Seq<char> {
    "Expected macro to be placed on a struct impl."@
}

pub open spec fn msg_lifetime_generics() -> Seq<char> {
    "Puppet actors cannot support lifetime generics."@
}

pub open spec fn msg_const_generics() -> Seq<char> {
    "Puppet actors cannot support const generics."@
}

pub open spec fn msg_reply_returns_value() -> Seq<char> {
    "Message handlers taking a reply parameter cannot return a value."@
}

pub open spec fn msg_not_async() -> Seq<char> {
    "Message handlers must be async."@
}

pub open spec fn msg_not_ref_self() -> Seq<char> {
    "Message handler must be either `&self` or `&mut self`"@
}

pub open spec fn msg_too_many_arguments() -> Seq<char> {
    "Message handler can only support accepting `self` and a single message parameter. Got: "@
}

pub open spec fn msg_unsupported_argument() -> Seq<char> {
    "Only concrete types or generics are supported by the system. impl trait blocks and others are not."@
}

pub open spec fn msg_missing_message() -> Seq<char> {
    "Expected message argument to be present."@
}

pub open spec fn msg_missing_message_or_reply() -> Seq<char> {
    "Expected message argument to be present and a reply argument, hint: reply parameter must take `puppet::Reply<T>` type."@
}

pub open spec fn msg_missing_segment() -> Seq<char> {
    "Expected message type to be part of function signature."@
}

pub open spec fn msg_unsupported_generic() -> Seq<char> {
    "Unsupported generics in message handler signature."@
}

pub open spec fn msg_non_static_lifetime() -> Seq<char> {
    "Only `&'static` lifetimes are supported in generic message payloads."@
}

pub open spec fn msg_impl_trait() -> Seq<char> {
    "Message handlers do not support impl trait types."@
}

pub open spec fn msg_inferred() -> Seq<char> {
    "Message handlers do not support inferred types."@
}

pub open spec fn msg_macro() -> Seq<char> {
    "Message handlers do not support macros in the arguments."@
}

pub open spec fn msg_slice() -> Seq<char> {
    "Slices are not supported by puppet in message handlers."@
}

/// The diagnostic at `node` that says `message`.
pub fn error_at(node: usize, message: &str) -> (e: MacroError)
    ensures
        e@ == error_view(node, message@),
{
    MacroError { node, message: String::from_str(message) }
}

} // verus!
