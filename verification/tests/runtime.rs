use puppet::{Actor, ActorMailbox, Executor, Message};
use std::borrow::Cow;
use std::future::Future;

pub struct MyActor;

impl Actor for MyActor {
    type Messages = String;
}

pub struct SayHello {
    pub name: String,
}

impl Message for SayHello {
    type Output = String;
}

#[test]
fn named_run_basic_actor() {
    // What `spawn_actor_with_name("Test")` builds: a mailbox named after its argument.
    let (tx, _rx) = flume::bounded::<String>(100);
    let mailbox: ActorMailbox<MyActor> = ActorMailbox::new(tx, Cow::Owned("Test".to_string()));
    assert_eq!(mailbox.name(), "Test");
}

#[test]
fn borrowed_names_and_clones() {
    let (tx, rx) = flume::unbounded::<String>();
    let mailbox: ActorMailbox<MyActor> = ActorMailbox::new(tx, Cow::Borrowed("MyActor"));
    let copy = mailbox.clone();
    assert_eq!(copy.name(), "MyActor");
    // Both senders reach the same channel.
    mailbox.sender().send("one".to_string()).unwrap();
    copy.sender().send("two".to_string()).unwrap();
    assert_eq!(rx.recv().unwrap(), "one");
    assert_eq!(rx.recv().unwrap(), "two");
}

#[test]
fn clone_of_owned_name() {
    let (tx, _rx) = flume::unbounded::<String>();
    let mailbox: ActorMailbox<MyActor> = ActorMailbox::new(tx, Cow::Owned("Owned".to_string()));
    let copy = mailbox.clone();
    drop(mailbox);
    assert_eq!(copy.name(), "Owned");
}

#[test]
fn messages_name_their_output() {
    fn output_of<M: Message<Output = String>>(_m: &M) -> &'static str {
        "String"
    }
    assert_eq!(output_of(&SayHello { name: "Harri".to_string() }), "String");
}

pub struct CustomExecutor;

impl Executor for CustomExecutor {
    fn spawn(&self, fut: impl Future<Output = ()> + Send + 'static) {
        futures::executor::block_on(fut);
    }
}

#[test]
fn custom_executor_runs_the_spawned_actor_loop() {
    // The executor receives the actor's loop; here it drains a mailbox named "demo".
    let (tx, rx) = flume::bounded::<String>(100);
    let mailbox: ActorMailbox<MyActor> = ActorMailbox::new(tx, Cow::Borrowed("demo"));
    mailbox.sender().send("Harri".to_string()).unwrap();
    drop(mailbox);
    let (done_tx, done_rx) = flume::unbounded::<String>();
    CustomExecutor.spawn(async move {
        while let Ok(name) = rx.recv_async().await {
            done_tx.send(format!("Hello, {}!", name)).unwrap();
        }
    });
    assert_eq!(done_rx.recv().unwrap(), "Hello, Harri!");
}
