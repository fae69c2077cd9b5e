//! Scenes: what they are asked by the app manager, and what they answer.
use crate::command::Command;
use crate::message::{Envelope, type_id_of};
use crate::outbox::Outbox;
use std::any::TypeId;
use vstd::prelude::*;

verus! {

/// Identifies a registered scene.
#[derive(Clone, Copy, PartialEq, Eq, Structural, Hash, Debug)]
pub struct SceneId(pub u64);

/// Used by the central app manager to know whether a key event was consumed or not.
#[derive(Clone, Copy, PartialEq, Eq, Structural, Debug)]
pub enum KeyFlow {
    Pass,
    Consumed,
}

/// The key of a key press, as far as the scenes tell keys apart.
#[derive(Clone, Copy, PartialEq, Eq, Structural, Debug)]
pub enum KeyCode {
    Char(char),
    Tab,
    BackTab,
    Enter,
    Esc,
    Backspace,
    Up,
    Down,
    Left,
    Right,
    Other,
}

/// A key press: its key and whether Control was held.
#[derive(Clone, Copy, PartialEq, Eq, Structural, Debug)]
pub struct KeyInput {
    pub code: KeyCode,
    pub ctrl: bool,
}

/// Additional information a scene passes onto the central app manager.
/// `F` spawns a scene: it is run by the application with the app manager at hand.
pub enum Action<F> {
    /// No action
    Nothing,
    /// Close this scene
    Pop,
    /// Quit the app
    Quit,
    /// Run this command
    RunJob(Command),
    /// Register this scene and push it onto the stack to render it above this scene
    Push(F),
}

/// Collects the message types that a scene subscribes to.
pub struct Registrar {
    pub(crate) subs: Vec<TypeId>,
}

impl Registrar {
    pub closed spec fn spec_subs(&self) -> Seq<TypeId> {
        self.subs@
    }

    /// The subscriptions are the ones in the list.
    pub(crate) proof fn lemma_subs_view(&self)
        ensures
            self.spec_subs() == self.subs@,
    {
    }

    pub fn new() -> (r: Self)
        ensures
            r.spec_subs() == Seq::<TypeId>::empty(),
    {
        Registrar { subs: Vec::new() }
    }

    /// Subscribes the scene being registered to messages of type `T`.
    pub fn on<T: ?Sized + 'static>(&mut self)
        ensures
            final(self).spec_subs().len() == old(self).spec_subs().len() + 1,
            final(self).spec_subs().drop_last() == old(self).spec_subs(),
    {
        self.subs.push(type_id_of::<T>());
    }
}

/// A scene of the user interface. `C` is the context handed to the scenes,
/// `P` the erased message payload and `F` the scene spawner of [Action::Push].
///
/// The spec functions describe the scene to the app manager. Their defaults
/// describe a scene without children that promises nothing of what keys,
/// messages and mounting do to it; a scene with children or an active child
/// states them in `spec_children` and `spec_active_child`.
pub trait Scene<C, P, F>: Sized {
    /// The scenes this scene owns, as `child_ids` reports them: none by
    /// default.
    open spec fn spec_children(&self) -> Seq<SceneId> {
        Seq::empty()
    }

    /// The child scene that receives the keys this scene lets pass: none by
    /// default.
    open spec fn spec_active_child(&self) -> Option<SceneId> {
        None
    }

    /// What registering this scene makes of the subscriptions `before`. The
    /// default says nothing.
    open spec fn spec_registered(&self, before: Seq<TypeId>, after: Seq<TypeId>) -> bool {
        true
    }

    /// How this scene answers `key`: its state after, the outbox before and
    /// after, and the action. The default says nothing.
    open spec fn spec_key_answered(
        &self,
        key: KeyInput,
        after: Self,
        out_before: Outbox<P>,
        out_after: Outbox<P>,
        a: Action<F>,
    ) -> bool {
        true
    }

    /// What taking a look at `key` before the active child does to this
    /// scene, and whether the key goes on. The default says nothing.
    open spec fn spec_intercepted(&self, key: KeyInput, after: Self, flow: KeyFlow) -> bool {
        true
    }

    /// Lists the message types this scene subscribes to.
    fn register(&self, registrar: &mut Registrar)
        ensures
            self.spec_registered(old(registrar).spec_subs(), final(registrar).spec_subs()),
    ;

    fn handle_key(&mut self, key: &KeyInput, ctx: &C, out: &mut Outbox<P>) -> (a: Action<F>)
        ensures
            old(self).spec_key_answered(*key, *final(self), *old(out), *final(out), a),
    ;

    /// What mounting does to this scene and its outbox. The default says
    /// nothing.
    open spec fn spec_mounted(&self, after: Self, out_before: Outbox<P>, out_after: Outbox<P>) -> bool {
        true
    }

    fn on_mount(&mut self, ctx: &C, out: &mut Outbox<P>)
        ensures
            old(self).spec_mounted(*final(self), *old(out), *final(out)),
    ;

    /// Lets a scene take a key before its active child sees it. A scene that
    /// lets the key pass keeps its active child.
    fn intercept_key(&mut self, key: &KeyInput) -> (flow: KeyFlow)
        ensures
            flow == KeyFlow::Pass ==> final(self).spec_active_child() == old(self).spec_active_child(),
            old(self).spec_intercepted(*key, *final(self), flow),
    ;

    fn active_child(&self) -> (r: Option<SceneId>)
        ensures
            r == self.spec_active_child(),
    ;

    fn child_ids(&self) -> (r: Vec<SceneId>)
        ensures
            r@ == self.spec_children(),
    ;

    /// What handling `msg` does to this scene and its outbox. The default
    /// says nothing.
    open spec fn spec_handled(&self, msg: Envelope<P>, after: Self, out_before: Outbox<P>, out_after: Outbox<P>) -> bool {
        true
    }

    /// Handles a message of a type this scene subscribed to.
    fn handle(&mut self, msg: &Envelope<P>, ctx: &C, out: &mut Outbox<P>)
        ensures
            old(self).spec_handled(*msg, *final(self), *old(out), *final(out)),
    ;
}

} // verus!
