//! A scene to try the app manager with: it lists the working directory.
use crate::jobs::mc_command_sender::McCommandSenderJob;
use crate::message::Envelope;
use crate::outbox::Outbox;
use std::any::TypeId;
use crate::scene::{Action, KeyFlow, KeyInput, Registrar, Scene, SceneId};
use vstd::prelude::*;

verus! {

pub struct TestScene;

impl<C, P, F> Scene<C, P, F> for TestScene {
    open spec fn spec_children(&self) -> Seq<SceneId> {
        Seq::empty()
    }

    open spec fn spec_active_child(&self) -> Option<SceneId> {
        None
    }

    /// It adds one subscription, after those already there.
    open spec fn spec_registered(&self, before: Seq<TypeId>, after: Seq<TypeId>) -> bool {
        after.len() == before.len() + 1 && after.drop_last() == before
    }

    /// Keys change nothing and ask for nothing.
    open spec fn spec_key_answered(
        &self,
        key: KeyInput,
        after: Self,
        out_before: Outbox<P>,
        out_after: Outbox<P>,
        a: Action<F>,
    ) -> bool {
        &&& after == *self
        &&& out_after == out_before
        &&& a is Nothing
    }

    /// Every key goes on to the children, and the scene stays as it was.
    open spec fn spec_intercepted(&self, key: KeyInput, after: Self, flow: KeyFlow) -> bool {
        flow == KeyFlow::Pass && after == *self
    }

    /// Mounting changes nothing and emits nothing.
    open spec fn spec_mounted(&self, after: Self, out_before: Outbox<P>, out_after: Outbox<P>) -> bool {
        after == *self && out_after == out_before
    }

    /// Messages change nothing and emit nothing.
    open spec fn spec_handled(&self, msg: Envelope<P>, after: Self, out_before: Outbox<P>, out_after: Outbox<P>) -> bool {
        after == *self && out_after == out_before
    }

    /// Listens to what the console command sender reports.
    fn register(&self, registrar: &mut Registrar) {
        McCommandSenderJob::subscribe(registrar);
    }

    /// Keys are left to the children and the app manager.
    fn handle_key(&mut self, key: &KeyInput, ctx: &C, out: &mut Outbox<P>) -> (a: Action<F>) {
        Action::Nothing
    }

    fn on_mount(&mut self, ctx: &C, out: &mut Outbox<P>) {
    }

    fn intercept_key(&mut self, key: &KeyInput) -> (flow: KeyFlow) {
        KeyFlow::Pass
    }

    fn active_child(&self) -> (r: Option<SceneId>) {
        None
    }

    fn child_ids(&self) -> (r: Vec<SceneId>) {
        Vec::new()
    }

    fn handle(&mut self, msg: &Envelope<P>, ctx: &C, out: &mut Outbox<P>) {
    }
}

} // verus!
