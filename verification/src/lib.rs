//! Puppet: an actor framework without boxing or dynamic dispatch. Each actor's messages form
//! an enum, and a mailbox sends them to the actor's task over a channel.
//!
//! This crate holds the actor runtime types and the derivation logic: from a plain-value
//! model of an actor's `impl` block, `generate` computes everything the generated code is
//! made of.
use futures::channel::oneshot;
use std::borrow::Cow;
use std::future::Future;
use vstd::prelude::*;

pub mod __private;
pub mod errors;
pub mod generate;
pub mod generics_processor;
pub mod handler;
pub mod model;
mod queue;
pub mod utils;

verus! {

#[verifier::external_type_specification]
#[verifier::external_body]
#[verifier::reject_recursive_types(T)]
pub struct ExFlumeSender<T>(flume::Sender<T>);

#[verifier::external_type_specification]
#[verifier::external_body]
#[verifier::reject_recursive_types(T)]
pub struct ExOneshotReceiver<T>(oneshot::Receiver<T>);

/// The error a oneshot receiver yields; declared because the receiver's `Future` impl names it.
#[verifier::external_type_specification]
#[verifier::external_body]
pub struct ExOneshotCanceled(oneshot::Canceled);

/// A derived actor handler.
pub trait Actor {
    /// The derive actor messages.
    type Messages;
}

/// An actor message.
pub trait Message {
    /// The response type of the message.
    type Output;
}

/// A custom executor to spawn actors into.
pub trait Executor {
    fn spawn(&self, fut: impl Future<Output = ()> + Send + 'static);
}

/// Builds the enum value that carries a message, and the receiver of its response. Used by
/// generated code.
pub trait MessageHandler<T: Message> {
    fn create(msg: T) -> (Self, oneshot::Receiver<T::Output>) where Self: Sized;
}

/// A actor mailbox.
///
/// This is a cheap to clone way of contacting the actor and sending messages.
#[verifier::reject_recursive_types(A)]
pub struct ActorMailbox<A: Actor> {
    tx: flume::Sender<A::Messages>,
    name: Cow<'static, str>,
}

/// `flume::Sender::clone`: another handle on the same channel. A sender holds nothing but the
/// shared channel, and its clone shares that same channel, so the clone equals the original
/// as far as the proofs can see.
#[verifier::external_body]
fn clone_sender<T>(tx: &flume::Sender<T>) -> (c: flume::Sender<T>)
    ensures
        c == *tx,
{
    tx.clone()
}

/// A copy of a name.
fn copy_name(name: &Cow<'static, str>) -> (r: Cow<'static, str>)
    ensures
        r@ == name@,
{
    match name {
        Cow::Borrowed(b) => Cow::Borrowed(*b),
        Cow::Owned(o) => Cow::Owned(o.clone()),
    }
}

impl<A: Actor> ActorMailbox<A> {
    /// The name of the actor, as characters.
    pub closed spec fn name_spec(&self) -> Seq<char> {
        self.name@
    }

    /// The sender into the actor's channel.
    pub closed spec fn channel(&self) -> flume::Sender<A::Messages> {
        self.tx
    }

    /// Creates a new actor mailbox.
    ///
    /// This should only really be made by the derive system.
    pub fn new(tx: flume::Sender<A::Messages>, name: Cow<'static, str>) -> (r: Self)
        ensures
            r.name_spec() == name@,
            r.channel() == tx,
    {
        Self { tx, name }
    }

    /// The name of the actor.
    ///
    /// This can be set by calling `actor.spawn_actor_with_name` or `actor.spawn_actor_with_name_and_size`
    pub fn name(&self) -> (r: &str)
        ensures
            r@ == self.name_spec(),
    {
        match &self.name {
            Cow::Borrowed(b) => b,
            Cow::Owned(o) => o.as_str(),
        }
    }

    /// The sender into the actor's channel, for the sending methods.
    pub fn sender(&self) -> (tx: &flume::Sender<A::Messages>)
        ensures
            *tx == self.channel(),
    {
        &self.tx
    }
}

impl<A: Actor> Clone for ActorMailbox<A> {
    fn clone(&self) -> (r: Self)
        ensures
            r.name_spec() == self.name_spec(),
            r.channel() == self.channel(),
    {
        Self { tx: clone_sender(&self.tx), name: copy_name(&self.name) }
    }
}

} // verus!
