//! The scenes of the console, as one type that the app manager can hold.
use crate::message::Envelope;
use crate::outbox::Outbox;
use crate::scene::{Action, KeyFlow, KeyInput, Registrar, Scene, SceneId};
use crate::tabbed_scene::TabbedScene;
use crate::test_scene::TestScene;
use std::any::TypeId;
use vstd::prelude::*;

verus! {

/// One scene of the console: each of its contracts is the one of the scene
/// it holds.
pub enum ConsoleScene {
    Tabbed(TabbedScene),
    Test(TestScene),
}

impl<C, P, F> Scene<C, P, F> for ConsoleScene {
    open spec fn spec_children(&self) -> Seq<SceneId> {
        match self {
            ConsoleScene::Tabbed(t) => <TabbedScene as Scene<C, P, F>>::spec_children(t),
            ConsoleScene::Test(t) => <TestScene as Scene<C, P, F>>::spec_children(t),
        }
    }

    open spec fn spec_active_child(&self) -> Option<SceneId> {
        match self {
            ConsoleScene::Tabbed(t) => <TabbedScene as Scene<C, P, F>>::spec_active_child(t),
            ConsoleScene::Test(t) => <TestScene as Scene<C, P, F>>::spec_active_child(t),
        }
    }

    open spec fn spec_registered(&self, before: Seq<TypeId>, after: Seq<TypeId>) -> bool {
        match self {
            ConsoleScene::Tabbed(t) => <TabbedScene as Scene<C, P, F>>::spec_registered(t, before, after),
            ConsoleScene::Test(t) => <TestScene as Scene<C, P, F>>::spec_registered(t, before, after),
        }
    }

    open spec fn spec_key_answered(
        &self,
        key: KeyInput,
        after: Self,
        out_before: Outbox<P>,
        out_after: Outbox<P>,
        a: Action<F>,
    ) -> bool {
        match (self, after) {
            (ConsoleScene::Tabbed(t), ConsoleScene::Tabbed(t2)) => <TabbedScene as Scene<C, P, F>>::spec_key_answered(
                t,
                key,
                t2,
                out_before,
                out_after,
                a,
            ),
            (ConsoleScene::Test(t), ConsoleScene::Test(t2)) => <TestScene as Scene<C, P, F>>::spec_key_answered(
                t,
                key,
                t2,
                out_before,
                out_after,
                a,
            ),
            _ => false,
        }
    }

    open spec fn spec_intercepted(&self, key: KeyInput, after: Self, flow: KeyFlow) -> bool {
        match (self, after) {
            (ConsoleScene::Tabbed(t), ConsoleScene::Tabbed(t2)) => <TabbedScene as Scene<C, P, F>>::spec_intercepted(
                t,
                key,
                t2,
                flow,
            ),
            (ConsoleScene::Test(t), ConsoleScene::Test(t2)) => <TestScene as Scene<C, P, F>>::spec_intercepted(
                t,
                key,
                t2,
                flow,
            ),
            _ => false,
        }
    }

    open spec fn spec_mounted(&self, after: Self, out_before: Outbox<P>, out_after: Outbox<P>) -> bool {
        match (self, after) {
            (ConsoleScene::Tabbed(t), ConsoleScene::Tabbed(t2)) => <TabbedScene as Scene<C, P, F>>::spec_mounted(
                t,
                t2,
                out_before,
                out_after,
            ),
            (ConsoleScene::Test(t), ConsoleScene::Test(t2)) => <TestScene as Scene<C, P, F>>::spec_mounted(
                t,
                t2,
                out_before,
                out_after,
            ),
            _ => false,
        }
    }

    open spec fn spec_handled(&self, msg: Envelope<P>, after: Self, out_before: Outbox<P>, out_after: Outbox<P>) -> bool {
        match (self, after) {
            (ConsoleScene::Tabbed(t), ConsoleScene::Tabbed(t2)) => <TabbedScene as Scene<C, P, F>>::spec_handled(
                t,
                msg,
                t2,
                out_before,
                out_after,
            ),
            (ConsoleScene::Test(t), ConsoleScene::Test(t2)) => <TestScene as Scene<C, P, F>>::spec_handled(
                t,
                msg,
                t2,
                out_before,
                out_after,
            ),
            _ => false,
        }
    }

    fn register(&self, registrar: &mut Registrar) {
        match self {
            ConsoleScene::Tabbed(t) => <TabbedScene as Scene<C, P, F>>::register(t, registrar),
            ConsoleScene::Test(t) => <TestScene as Scene<C, P, F>>::register(t, registrar),
        }
    }

    fn handle_key(&mut self, key: &KeyInput, ctx: &C, out: &mut Outbox<P>) -> (a: Action<F>) {
        match self {
            ConsoleScene::Tabbed(t) => <TabbedScene as Scene<C, P, F>>::handle_key(t, key, ctx, out),
            ConsoleScene::Test(t) => <TestScene as Scene<C, P, F>>::handle_key(t, key, ctx, out),
        }
    }

    fn on_mount(&mut self, ctx: &C, out: &mut Outbox<P>) {
        match self {
            ConsoleScene::Tabbed(t) => <TabbedScene as Scene<C, P, F>>::on_mount(t, ctx, out),
            ConsoleScene::Test(t) => <TestScene as Scene<C, P, F>>::on_mount(t, ctx, out),
        }
    }

    fn intercept_key(&mut self, key: &KeyInput) -> (flow: KeyFlow) {
        match self {
            ConsoleScene::Tabbed(t) => <TabbedScene as Scene<C, P, F>>::intercept_key(t, key),
            ConsoleScene::Test(t) => <TestScene as Scene<C, P, F>>::intercept_key(t, key),
        }
    }

    fn active_child(&self) -> (r: Option<SceneId>) {
        match self {
            ConsoleScene::Tabbed(t) => <TabbedScene as Scene<C, P, F>>::active_child(t),
            ConsoleScene::Test(t) => <TestScene as Scene<C, P, F>>::active_child(t),
        }
    }

    fn child_ids(&self) -> (r: Vec<SceneId>) {
        match self {
            ConsoleScene::Tabbed(t) => <TabbedScene as Scene<C, P, F>>::child_ids(t),
            ConsoleScene::Test(t) => <TestScene as Scene<C, P, F>>::child_ids(t),
        }
    }

    fn handle(&mut self, msg: &Envelope<P>, ctx: &C, out: &mut Outbox<P>) {
        match self {
            ConsoleScene::Tabbed(t) => <TabbedScene as Scene<C, P, F>>::handle(t, msg, ctx, out),
            ConsoleScene::Test(t) => <TestScene as Scene<C, P, F>>::handle(t, msg, ctx, out),
        }
    }
}

} // verus!
