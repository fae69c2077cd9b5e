//! A scene that shows one of several child scenes, one tab each.
use crate::message::Envelope;
use crate::outbox::Outbox;
use std::any::TypeId;
use crate::scene::{Action, KeyCode, KeyFlow, KeyInput, Registrar, Scene, SceneId};
use ratatui::layout::{Constraint, Layout, Rect};
use vstd::prelude::*;

verus! {

/// A rectangle of the terminal, in cells.
#[derive(Clone, Copy, PartialEq, Eq, Structural, Debug)]
pub struct Area {
    pub x: u16,
    pub y: u16,
    pub width: u16,
    pub height: u16,
}

pub open spec fn area_tuple(a: Area) -> (u16, u16, u16, u16) {
    (a.x, a.y, a.width, a.height)
}

/// A name for what ratatui's `Layout::vertical([Length(1), Min(0)]).areas`
/// makes of a rectangle: the tab bar on top, then the body.
pub uninterp spec fn tab_layout(area: (u16, u16, u16, u16)) -> ((u16, u16, u16, u16), (u16, u16, u16, u16));

/// Calls `ratatui::layout::Layout::areas` on a vertical layout of a row of
/// height 1 above the rest. Claims that the two rectangles are
/// `tab_layout` of the area.
#[verifier::external_body]
fn split(area: Area) -> (r: (Area, Area))
    ensures
        (area_tuple(r.0), area_tuple(r.1)) == tab_layout(area_tuple(area)),
{
    let rect = Rect { x: area.x, y: area.y, width: area.width, height: area.height };
    let [bar, body] = Layout::vertical([Constraint::Length(1), Constraint::Min(0)]).areas(rect);
    (
        Area { x: bar.x, y: bar.y, width: bar.width, height: bar.height },
        Area { x: body.x, y: body.y, width: body.width, height: body.height },
    )
}

pub struct Tab {
    pub title: String,
    pub sid: SceneId,
}

pub struct TabbedScene {
    tabs: Vec<Tab>,
    active: usize,
}

/// The tab that follows `active` among `n` tabs, wrapping around.
pub open spec fn next_index(active: int, n: int) -> int {
    (active + 1) % n
}

/// The tab that precedes `active` among `n` tabs, wrapping around.
pub open spec fn prev_index(active: int, n: int) -> int {
    (active + n - 1) % n
}

/// The tab that Control and a digit from 1 to 9 selects, counting from 0.
pub open spec fn digit_tab(c: char) -> Option<int> {
    if '1' <= c && c <= '9' {
        Some(c as int - '1' as int)
    } else {
        None
    }
}

/// Going to the next tab and then to the previous one comes back to the
/// tab one started from, and the other way round.
pub proof fn lemma_prev_undoes_next(active: int, n: int)
    requires
        0 <= active < n,
    ensures
        prev_index(next_index(active, n), n) == active,
        next_index(prev_index(active, n), n) == active,
{
    if active + 1 == n {
        assert((active + 1) % n == 0) by (nonlinear_arith)
            requires
                active + 1 == n,
                n > 0,
        ;
    } else {
        assert((active + 1) % n == active + 1) by (nonlinear_arith)
            requires
                0 <= active + 1 < n,
        ;
    }
    assert((next_index(active, n) + n - 1) % n == active) by (nonlinear_arith)
        requires
            0 <= active < n,
            next_index(active, n) == (if active + 1 == n { 0 } else { active + 1 }),
    ;
    if active == 0 {
        assert((active + n - 1) % n == n - 1) by (nonlinear_arith)
            requires
                active == 0,
                n > 0,
        ;
    } else {
        assert((active + n - 1) % n == active - 1) by (nonlinear_arith)
            requires
                0 < active < n,
        ;
    }
    assert((prev_index(active, n) + 1) % n == active) by (nonlinear_arith)
        requires
            0 <= active < n,
            prev_index(active, n) == (if active == 0 { n - 1 } else { active - 1 }),
    ;
}

/// What a key does to a tabbed scene: Control-Tab and Control-BackTab go to
/// the next and the previous tab, Control and a digit from 1 to 9 selects
/// that tab when there is one; these keys are consumed, every other key
/// passes and changes nothing. The tabs themselves stay.
pub open spec fn intercepted(before: TabbedScene, key: KeyInput, after: TabbedScene, flow: KeyFlow) -> bool {
    &&& after.spec_sids() == before.spec_sids()
    &&& after.spec_titles() == before.spec_titles()
    &&& flow == (if key.ctrl && (key.code == KeyCode::Tab || key.code == KeyCode::BackTab
        || (key.code matches KeyCode::Char(c) && digit_tab(c) is Some)) {
        KeyFlow::Consumed
    } else {
        KeyFlow::Pass
    })
    &&& flow == KeyFlow::Pass ==> after.spec_active() == before.spec_active()
    &&& key.ctrl && key.code == KeyCode::Tab && before.spec_sids().len() > 0 ==> after.spec_active()
        == next_index(before.spec_active(), before.spec_sids().len() as int)
    &&& key.ctrl && key.code == KeyCode::BackTab && before.spec_sids().len() > 0 ==> after.spec_active()
        == prev_index(before.spec_active(), before.spec_sids().len() as int)
    &&& forall|c: char|
        key.ctrl && key.code == KeyCode::Char(c) && #[trigger] digit_tab(c) is Some ==> after.spec_active() == (
        if digit_tab(c)->0 < before.spec_sids().len() {
            digit_tab(c)->0
        } else {
            before.spec_active()
        })
}

/// Control and a digit from 1 to 9 is always consumed, and selects the tab
/// that the digit counts (Control-1 the first) when there are that many
/// tabs; otherwise the selected tab stays.
pub proof fn lemma_control_digit_selects_tab(before: TabbedScene, d: char, after: TabbedScene, flow: KeyFlow)
    requires
        '1' <= d <= '9',
        intercepted(before, KeyInput { code: KeyCode::Char(d), ctrl: true }, after, flow),
    ensures
        flow == KeyFlow::Consumed,
        after.spec_sids() == before.spec_sids(),
        (d as int) - ('1' as int) < before.spec_sids().len() ==> after.spec_active() == (d as int) - ('1' as int),
        (d as int) - ('1' as int) >= before.spec_sids().len() ==> after.spec_active() == before.spec_active(),
{
    assert(digit_tab(d) is Some);
}

/// Without Control no key switches tabs: it passes to the active child and
/// the selection stays.
pub proof fn lemma_plain_keys_pass(before: TabbedScene, key: KeyInput, after: TabbedScene, flow: KeyFlow)
    requires
        !key.ctrl,
        intercepted(before, key, after, flow),
    ensures
        flow == KeyFlow::Pass,
        after.spec_active() == before.spec_active(),
{
}

/// What a tabbed scene answers a key: one without tabs closes itself, one
/// with tabs does nothing.
pub open spec fn tabbed_key_action<F>(s: TabbedScene) -> Action<F> {
    if s.spec_sids().len() == 0 {
        Action::Pop
    } else {
        Action::Nothing
    }
}

impl TabbedScene {
    #[verifier::type_invariant]
    spec fn active_in_range(&self) -> bool {
        if self.tabs@.len() == 0 {
            self.active == 0
        } else {
            self.active < self.tabs@.len()
        }
    }

    /// The scene of each tab, in tab order.
    pub closed spec fn spec_sids(&self) -> Seq<SceneId> {
        self.tabs@.map_values(|t: Tab| t.sid)
    }

    /// The title of each tab, in tab order.
    pub closed spec fn spec_titles(&self) -> Seq<Seq<char>> {
        self.tabs@.map_values(|t: Tab| t.title@)
    }

    /// The index of the selected tab.
    pub closed spec fn spec_active(&self) -> int {
        self.active as int
    }

    pub fn new(tabs: Vec<Tab>) -> (s: Self)
        ensures
            s.spec_sids() == tabs@.map_values(|t: Tab| t.sid),
            s.spec_titles() == tabs@.map_values(|t: Tab| t.title@),
            s.spec_active() == 0,
    {
        TabbedScene { tabs, active: 0 }
    }

    /// The selected tab's index.
    pub fn active(&self) -> (r: usize)
        ensures
            r == self.spec_active(),
            0 <= self.spec_active(),
            self.spec_sids().len() == 0 ==> r == 0,
            self.spec_sids().len() > 0 ==> r < self.spec_sids().len(),
    {
        proof {
            use_type_invariant(self);
        }
        self.active
    }

    /// The tabs, in tab order.
    pub fn tabs(&self) -> (r: &Vec<Tab>)
        ensures
            r@.map_values(|t: Tab| t.sid) == self.spec_sids(),
            r@.map_values(|t: Tab| t.title@) == self.spec_titles(),
    {
        &self.tabs
    }

    pub fn next_tab(&mut self)
        ensures
            final(self).spec_sids() == old(self).spec_sids(),
            final(self).spec_titles() == old(self).spec_titles(),
            old(self).spec_sids().len() > 0 ==> final(self).spec_active() == next_index(
                old(self).spec_active(),
                old(self).spec_sids().len() as int,
            ),
            old(self).spec_sids().len() == 0 ==> final(self).spec_active() == old(self).spec_active(),
    {
        proof {
            use_type_invariant(&*self);
        }
        if self.tabs.len() > 0 {
            let n = self.tabs.len();
            let a = if self.active + 1 == n {
                0
            } else {
                self.active + 1
            };
            proof {
                let ai = self.active as int;
                if ai + 1 == n {
                    assert((ai + 1) % (n as int) == 0) by (nonlinear_arith)
                        requires
                            ai + 1 == n,
                            n > 0,
                    ;
                } else {
                    assert((ai + 1) % (n as int) == ai + 1) by (nonlinear_arith)
                        requires
                            0 <= ai + 1 < n,
                    ;
                }
            }
            self.active = a;
        }
    }

    pub fn prev_tab(&mut self)
        ensures
            final(self).spec_sids() == old(self).spec_sids(),
            final(self).spec_titles() == old(self).spec_titles(),
            old(self).spec_sids().len() > 0 ==> final(self).spec_active() == prev_index(
                old(self).spec_active(),
                old(self).spec_sids().len() as int,
            ),
            old(self).spec_sids().len() == 0 ==> final(self).spec_active() == old(self).spec_active(),
    {
        proof {
            use_type_invariant(&*self);
        }
        if self.tabs.len() > 0 {
            let n = self.tabs.len();
            let a = if self.active == 0 {
                n - 1
            } else {
                self.active - 1
            };
            proof {
                let ai = self.active as int;
                if ai == 0 {
                    assert((ai + n - 1) % (n as int) == n - 1) by (nonlinear_arith)
                        requires
                            ai == 0,
                            n > 0,
                    ;
                } else {
                    assert((ai + n - 1) % (n as int) == ai - 1) by (nonlinear_arith)
                        requires
                            0 < ai < n,
                    ;
                }
            }
            self.active = a;
        }
    }

    /// Control-Tab and Control-BackTab go to the next and the previous tab;
    /// Control and a digit from 1 to 9 selects that tab when there is one.
    /// These keys are consumed; every other key passes.
    pub fn intercept_key(&mut self, key: &KeyInput) -> (flow: KeyFlow)
        ensures
            intercepted(*old(self), *key, *final(self), flow),
    {
        if !key.ctrl {
            return KeyFlow::Pass;
        }
        match key.code {
            KeyCode::Tab => {
                self.next_tab();
                KeyFlow::Consumed
            },
            KeyCode::BackTab => {
                self.prev_tab();
                KeyFlow::Consumed
            },
            KeyCode::Char(c) => {
                if '1' <= c && c <= '9' {
                    let idx = (c as u32 - '1' as u32) as usize;
                    if idx < self.tabs.len() {
                        self.active = idx;
                    }
                    KeyFlow::Consumed
                } else {
                    KeyFlow::Pass
                }
            },
            _ => KeyFlow::Pass,
        }
    }

    /// The scene of the selected tab.
    pub fn active_child(&self) -> (r: Option<SceneId>)
        ensures
            r == (if 0 <= self.spec_active() < self.spec_sids().len() {
                Some(self.spec_sids()[self.spec_active()])
            } else {
                None
            }),
    {
        if self.active < self.tabs.len() {
            Some(self.tabs[self.active].sid)
        } else {
            None
        }
    }

    /// The scenes of all tabs, in tab order.
    pub fn child_ids(&self) -> (r: Vec<SceneId>)
        ensures
            r@ == self.spec_sids(),
    {
        let mut r: Vec<SceneId> = Vec::new();
        let mut i: usize = 0;
        while i < self.tabs.len()
            invariant
                i <= self.tabs.len(),
                r@ == self.spec_sids().take(i as int),
            decreases self.tabs.len() - i,
        {
            r.push(self.tabs[i].sid);
            i += 1;
            assert(r@ =~= self.spec_sids().take(i as int));
        }
        assert(r@ =~= self.spec_sids());
        r
    }

    /// Where the tab bar goes within `area`.
    pub fn bar_area(area: Area) -> (r: Area)
        ensures
            area_tuple(r) == tab_layout(area_tuple(area)).0,
    {
        split(area).0
    }

    /// The selected tab's scene is drawn in the body, below the tab bar.
    pub fn child_areas(&self, area: Area) -> (r: Vec<(SceneId, Area)>)
        ensures
            0 <= self.spec_active() < self.spec_sids().len() ==> r@.len() == 1 && r@[0].0
                == self.spec_sids()[self.spec_active()] && area_tuple(r@[0].1) == tab_layout(area_tuple(area)).1,
            !(0 <= self.spec_active() < self.spec_sids().len()) ==> r@.len() == 0,
    {
        let (_bar, body) = split(area);
        let mut r: Vec<(SceneId, Area)> = Vec::new();
        if self.active < self.tabs.len() {
            r.push((self.tabs[self.active].sid, body));
        }
        r
    }

    /// A tabbed scene without tabs closes itself on the next key.
    pub fn handle_key<F>(&self, key: &KeyInput) -> (a: Action<F>)
        ensures
            a == tabbed_key_action::<F>(*self),
    {
        if self.tabs.len() == 0 {
            Action::Pop
        } else {
            Action::Nothing
        }
    }
}

impl<C, P, F> Scene<C, P, F> for TabbedScene {
    open spec fn spec_children(&self) -> Seq<SceneId> {
        self.spec_sids()
    }

    open spec fn spec_active_child(&self) -> Option<SceneId> {
        if 0 <= self.spec_active() < self.spec_sids().len() {
            Some(self.spec_sids()[self.spec_active()])
        } else {
            None
        }
    }

    /// A tabbed scene subscribes to nothing.
    open spec fn spec_registered(&self, before: Seq<TypeId>, after: Seq<TypeId>) -> bool {
        after == before
    }

    /// A key leaves the scene and the outbox as they were; the action is
    /// `tabbed_key_action`.
    open spec fn spec_key_answered(
        &self,
        key: KeyInput,
        after: Self,
        out_before: Outbox<P>,
        out_after: Outbox<P>,
        a: Action<F>,
    ) -> bool {
        &&& after == *self
        &&& out_after == out_before
        &&& a == tabbed_key_action::<F>(*self)
    }

    open spec fn spec_intercepted(&self, key: KeyInput, after: Self, flow: KeyFlow) -> bool {
        intercepted(*self, key, after, flow)
    }

    /// Mounting changes nothing and emits nothing.
    open spec fn spec_mounted(&self, after: Self, out_before: Outbox<P>, out_after: Outbox<P>) -> bool {
        after == *self && out_after == out_before
    }

    /// Messages change nothing and emit nothing.
    open spec fn spec_handled(&self, msg: Envelope<P>, after: Self, out_before: Outbox<P>, out_after: Outbox<P>) -> bool {
        after == *self && out_after == out_before
    }

    fn register(&self, registrar: &mut Registrar) {
    }

    fn handle_key(&mut self, key: &KeyInput, ctx: &C, out: &mut Outbox<P>) -> (a: Action<F>) {
        TabbedScene::handle_key(self, key)
    }

    fn on_mount(&mut self, ctx: &C, out: &mut Outbox<P>) {
    }

    fn intercept_key(&mut self, key: &KeyInput) -> (flow: KeyFlow) {
        TabbedScene::intercept_key(self, key)
    }

    fn active_child(&self) -> (r: Option<SceneId>) {
        TabbedScene::active_child(self)
    }

    fn child_ids(&self) -> (r: Vec<SceneId>) {
        TabbedScene::child_ids(self)
    }

    fn handle(&mut self, msg: &Envelope<P>, ctx: &C, out: &mut Outbox<P>) {
    }
}

} // verus!
