use mcconsole::command::{Command, Output, Reason};
use mcconsole::message::{Envelope, JobDone, Payload, Tagged, Tick, Message};
use mcconsole::outbox::Outbox;
use std::any::{Any, TypeId};

struct Boxed(Box<dyn Any + Send>);

impl Payload for Boxed {
    fn erase<T: Message>(msg: T) -> Self {
        Boxed(Box::new(msg))
    }
}

#[test]
fn from_exit_maps_helper_codes() {
    assert_eq!(Reason::from_exit(10), Reason::Usage);
    assert_eq!(Reason::from_exit(11), Reason::NoCaller);
    assert_eq!(Reason::from_exit(12), Reason::Tier);
    assert_eq!(Reason::from_exit(13), Reason::Locked);
    assert_eq!(Reason::from_exit(14), Reason::BadInput);
    assert_eq!(Reason::from_exit(15), Reason::NotFound);
    assert_eq!(Reason::from_exit(16), Reason::Precheck);
    assert_eq!(Reason::from_exit(17), Reason::Conflict);
    assert_eq!(Reason::from_exit(18), Reason::Refused);
    assert_eq!(Reason::from_exit(19), Reason::Internal);
}

#[test]
fn from_exit_maps_shell_codes() {
    assert_eq!(Reason::from_exit(126), Reason::NotAuthorized);
    assert_eq!(Reason::from_exit(127), Reason::NotAuthorized);
    assert_eq!(Reason::from_exit(255), Reason::Transport);
    assert_eq!(Reason::from_exit(137), Reason::Killed(9));
    assert_eq!(Reason::from_exit(128), Reason::Killed(0));
    assert_eq!(Reason::from_exit(254), Reason::Killed(126));
    assert_eq!(Reason::from_exit(1), Reason::Unknown(1));
    assert_eq!(Reason::from_exit(0), Reason::Unknown(0));
    assert_eq!(Reason::from_exit(-3), Reason::Unknown(-3));
    assert_eq!(Reason::from_exit(i32::MAX), Reason::Killed(i32::MAX - 128));
}

#[test]
fn command_builder_keeps_arguments_in_order() {
    let c = Command::new("pkexec").arg("/usr/bin/helper").arg("alice");
    assert_eq!(c.program, "pkexec");
    assert_eq!(c.args, vec!["/usr/bin/helper".to_string(), "alice".to_string()]);
    let empty = Command::new("true");
    assert!(empty.args.is_empty());
}

#[test]
fn output_success_is_exit_code_zero() {
    let ok = Output { code: 0, stdout: vec![], stderr: vec![] };
    let bad = Output { code: 3, stdout: b"x".to_vec(), stderr: vec![] };
    assert!(ok.success());
    assert!(!bad.success());
}

#[test]
fn tagged_opens_only_with_its_tag() {
    let t = Tagged::new(7, "payload".to_string());
    assert_eq!(t.open(7), Some(&"payload".to_string()));
    assert_eq!(t.open(8), None);
    assert_eq!(t.open(0), None);
}

#[test]
fn envelope_is_keyed_by_message_type() {
    let e: Envelope<Boxed> = Envelope::new(Tick);
    assert_eq!(e.tid, TypeId::of::<Tick>());
    let d: Envelope<Boxed> = Envelope::new(JobDone { ok: true });
    assert_eq!(d.tid, TypeId::of::<JobDone>());
    assert!(d.payload.0.downcast_ref::<JobDone>().unwrap().ok);
}

#[test]
fn outbox_keeps_emitted_messages_in_order() {
    let mut out: Outbox<Boxed> = Outbox::new();
    out.emit(Tick);
    out.emit(JobDone { ok: false });
    let pending = out.take_pending();
    assert_eq!(pending.len(), 2);
    assert_eq!(pending[0].tid, TypeId::of::<Tick>());
    assert_eq!(pending[1].tid, TypeId::of::<JobDone>());
    assert!(out.take_pending().is_empty());
}
