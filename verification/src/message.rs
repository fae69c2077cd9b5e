//! Messages that travel over the event bus.
use std::any::TypeId;
use vstd::prelude::*;

verus! {

/// `TypeId` is the key by which the bus routes a message to its subscribers.
#[verifier::external_type_specification]
#[verifier::external_body]
pub struct ExTypeId(TypeId);

/// Calls `std::any::TypeId::of::<T>()`. Nothing is claimed of the value: it
/// only serves as a routing key, compared with `same_type`.
#[verifier::external_body]
pub(crate) fn type_id_of<T: ?Sized + 'static>() -> TypeId {
    TypeId::of::<T>()
}

/// Calls `<TypeId as PartialEq>::eq`. Claims that two type ids compare equal
/// exactly when they are the same value.
#[verifier::external_body]
pub(crate) fn same_type(a: &TypeId, b: &TypeId) -> (r: bool)
    ensures
        r == (*a == *b),
{
    *a == *b
}

/// Marker trait for message types.
pub trait Message: Send + 'static {
}

/// How a message is stored once its type has been erased. The application
/// picks the representation (for instance a boxed `Any`).
pub trait Payload: Sized {
    fn erase<T: Message>(msg: T) -> Self;
}

/// A message which is tagged by an id and may only be opened by a matching tag.
pub struct Tagged<P> {
    tag: u64,
    payload: P,
}

impl<P> Tagged<P> {
    pub closed spec fn spec_tag(&self) -> u64 {
        self.tag
    }

    pub closed spec fn spec_payload(&self) -> P {
        self.payload
    }

    pub fn new(tag: u64, payload: P) -> (t: Self)
        ensures
            t.spec_tag() == tag,
            t.spec_payload() == payload,
    {
        Tagged { tag, payload }
    }

    /// Try reading the payload; if the tag differs returns `None`.
    pub fn open(&self, tag: u64) -> (r: Option<&P>)
        ensures
            r == (if tag == self.spec_tag() {
                Some(&self.spec_payload())
            } else {
                None
            }),
    {
        if tag == self.tag {
            Some(&self.payload)
        } else {
            None
        }
    }
}

impl<P: Send + 'static> Message for Tagged<P> {
}

/// A message fired multiple times per second, can be used to run animations.
pub struct Tick;

impl Message for Tick {
}

/// A simple wrapper over a String.
pub struct LogLine {
    pub line: String,
}

impl Message for LogLine {
}

/// Fired by some jobs to explicitly state that their job is done.
pub struct JobDone {
    /// Whether the job ran into some issues or not.
    pub ok: bool,
}

impl Message for JobDone {
}

/// Encloses a message erasing its type; the bus delivers it to the
/// subscribers of `tid`.
pub struct Envelope<P> {
    pub tid: TypeId,
    pub payload: P,
}

impl<P: Payload> Envelope<P> {
    /// Erases `msg` and keys it by the type id of `T`.
    pub fn new<T: Message>(msg: T) -> (e: Self)
        ensures
            call_ensures(P::erase::<T>, (msg,), e.payload),
    {
        let payload = P::erase(msg);
        Envelope { tid: type_id_of::<T>(), payload }
    }
}

} // verus!
