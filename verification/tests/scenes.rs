use mcconsole::scene::{Action, KeyCode, KeyFlow, KeyInput, SceneId};
use mcconsole::tabbed_scene::{Area, Tab, TabbedScene};

fn tabs(n: u64) -> Vec<Tab> {
    (0..n).map(|i| Tab { title: format!("tab {}", i), sid: SceneId(10 + i) }).collect()
}

fn ctrl(code: KeyCode) -> KeyInput {
    KeyInput { code, ctrl: true }
}

#[test]
fn next_and_prev_wrap_around() {
    let mut s = TabbedScene::new(tabs(3));
    assert_eq!(s.active(), 0);
    s.next_tab();
    assert_eq!(s.active(), 1);
    s.next_tab();
    s.next_tab();
    assert_eq!(s.active(), 0);
    s.prev_tab();
    assert_eq!(s.active(), 2);
    s.next_tab();
    assert_eq!(s.active(), 0);
}

#[test]
fn navigation_without_tabs_stays() {
    let mut s = TabbedScene::new(vec![]);
    s.next_tab();
    s.prev_tab();
    assert_eq!(s.active(), 0);
    assert_eq!(s.active_child(), None);
    assert!(matches!(s.handle_key::<()>(&ctrl(KeyCode::Tab)), Action::Pop));
}

#[test]
fn intercept_key_switches_tabs() {
    let mut s = TabbedScene::new(tabs(3));
    assert_eq!(s.intercept_key(&ctrl(KeyCode::Tab)), KeyFlow::Consumed);
    assert_eq!(s.active_child(), Some(SceneId(11)));
    assert_eq!(s.intercept_key(&ctrl(KeyCode::BackTab)), KeyFlow::Consumed);
    assert_eq!(s.active_child(), Some(SceneId(10)));
    assert_eq!(s.intercept_key(&ctrl(KeyCode::Char('3'))), KeyFlow::Consumed);
    assert_eq!(s.active(), 2);
    assert_eq!(s.intercept_key(&ctrl(KeyCode::Char('9'))), KeyFlow::Consumed);
    assert_eq!(s.active(), 2);
    assert_eq!(s.intercept_key(&ctrl(KeyCode::Char('0'))), KeyFlow::Pass);
    assert_eq!(s.intercept_key(&KeyInput { code: KeyCode::Tab, ctrl: false }), KeyFlow::Pass);
    assert_eq!(s.intercept_key(&ctrl(KeyCode::Char('x'))), KeyFlow::Pass);
    assert_eq!(s.active(), 2);
}

#[test]
fn tabbed_scene_children() {
    let s = TabbedScene::new(tabs(2));
    assert_eq!(s.child_ids(), vec![SceneId(10), SceneId(11)]);
    assert!(matches!(s.handle_key::<()>(&ctrl(KeyCode::Enter)), Action::Nothing));
    let area = Area { x: 0, y: 0, width: 80, height: 24 };
    let kids = s.child_areas(area);
    assert_eq!(kids.len(), 1);
    assert_eq!(kids[0].0, SceneId(10));
    assert_eq!(kids[0].1, Area { x: 0, y: 1, width: 80, height: 23 });
    assert_eq!(TabbedScene::bar_area(area), Area { x: 0, y: 0, width: 80, height: 1 });
    assert!(TabbedScene::new(vec![]).child_areas(area).is_empty());
    assert_eq!(s.tabs()[1].title, "tab 1");
}
