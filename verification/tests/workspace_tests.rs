use hypertile::input::{
    EventOutcome, HypertileEvent, KeyChord, KeyCode, Modifiers, MouseEvent, MouseEventKind,
};
use hypertile::geometry::Rect;
use hypertile::workspace::{EventTarget, TabId, WorkspaceAction, WorkspaceRuntime};
use ratatui::buffer::Buffer;
use ratatui::style::Style;
use std::time::Duration;

#[derive(Default)]
struct Recorder {
    seen: usize,
    drawn: usize,
}

impl EventTarget for Recorder {
    fn handled(&self, _event: HypertileEvent, after: Self, _r: EventOutcome) -> bool {
        after.seen == self.seen + 1
    }

    fn handle_event(&mut self, event: HypertileEvent) -> EventOutcome {
        self.seen += 1;
        match event {
            HypertileEvent::Mouse(_) => EventOutcome::Consumed,
            _ => EventOutcome::Ignored,
        }
    }

    fn frame_wait(&self, r: Option<Duration>) -> bool {
        r == Some(Duration::from_millis(self.seen as u64))
    }

    fn next_frame_in(&self) -> Option<Duration> {
        Some(Duration::from_millis(self.seen as u64))
    }

    fn drawn(&self, _area: Rect, after: Self) -> bool {
        after.drawn == self.drawn + 1
    }

    fn render(&mut self, area: Rect, buf: &mut Buffer) {
        self.drawn += 1;
        buf.set_string(area.x, area.y, "x", Style::default());
    }
}

fn test_workspace() -> WorkspaceRuntime<Recorder, fn() -> Recorder> {
    WorkspaceRuntime::new(Recorder::default as fn() -> Recorder)
}

fn ctrl(code: KeyCode) -> HypertileEvent {
    HypertileEvent::Key(KeyChord::with_modifiers(code, Modifiers::ctrl()))
}

fn labels(ws: &WorkspaceRuntime<Recorder, fn() -> Recorder>) -> Vec<(String, bool)> {
    ws.tab_labels().into_iter().map(|(l, a)| (l.to_string(), a)).collect()
}

#[test]
fn tab_lifecycle_keeps_active_index_valid() {
    let mut ws = test_workspace();
    ws.new_tab();
    ws.new_tab();
    ws.go_to_tab(0);
    ws.close_tab(0);
    assert_eq!(ws.tab_count(), 2);
    assert_eq!(ws.active_tab_index(), 0);
    ws.next_tab();
    assert_eq!(ws.active_tab_index(), 1);
    ws.prev_tab();
    assert_eq!(ws.active_tab_index(), 0);
    ws.close_tab(0);
    ws.close_tab(0);
    assert_eq!(ws.tab_count(), 1);
    assert_eq!(ws.active_tab_index(), 0);
}

#[test]
fn new_workspace_has_tab_one() {
    let ws = test_workspace();
    assert_eq!(ws.tab_count(), 1);
    assert_eq!(ws.active_tab_id(), TabId(0));
    assert_eq!(ws.active_tab_id().get(), 0);
    assert_eq!(labels(&ws), vec![("1".to_string(), true)]);
}

#[test]
fn new_tabs_are_labelled_by_position_and_get_fresh_ids() {
    let mut ws = test_workspace();
    ws.new_tab();
    ws.new_tab();
    assert_eq!(ws.open_tab_ids(), vec![TabId(0), TabId(1), TabId(2)]);
    ws.close_tab(1);
    ws.new_tab();
    assert_eq!(ws.open_tab_ids(), vec![TabId(0), TabId(2), TabId(3)]);
    assert_eq!(
        labels(&ws),
        vec![("1".to_string(), false), ("3".to_string(), false), ("3".to_string(), true)]
    );
    assert!(ws.is_tab_open(TabId(2)));
    assert!(!ws.is_tab_open(TabId(1)));
    for _ in 0..8 {
        ws.new_tab();
    }
    assert_eq!(labels(&ws)[10].0, "11");
}

#[test]
fn close_tab_adjusts_active_index() {
    let mut ws = test_workspace();
    ws.new_tab();
    ws.new_tab();
    ws.new_tab();
    ws.go_to_tab(2);
    ws.close_tab(0);
    assert_eq!(ws.active_tab_index(), 1);
    assert_eq!(ws.active_tab_id(), TabId(2));
    ws.go_to_tab(2);
    ws.close_tab(2);
    assert_eq!(ws.active_tab_index(), 1);
    ws.close_tab(7);
    assert_eq!(ws.tab_count(), 2);
    ws.go_to_tab(9);
    assert_eq!(ws.active_tab_index(), 1);
}

#[test]
fn next_and_prev_wrap_around() {
    let mut ws = test_workspace();
    ws.new_tab();
    ws.new_tab();
    assert_eq!(ws.active_tab_index(), 2);
    ws.next_tab();
    assert_eq!(ws.active_tab_index(), 0);
    ws.prev_tab();
    assert_eq!(ws.active_tab_index(), 2);
}

#[test]
fn rename_tab_replaces_one_label() {
    let mut ws = test_workspace();
    ws.new_tab();
    ws.rename_tab(0, "logs".to_string());
    ws.rename_tab(5, "nowhere".to_string());
    assert_eq!(labels(&ws), vec![("logs".to_string(), false), ("2".to_string(), true)]);
}

#[test]
fn workspace_actions_apply() {
    let mut ws = test_workspace();
    ws.apply_workspace_action(WorkspaceAction::NewTab);
    ws.apply_workspace_action(WorkspaceAction::NewTab);
    ws.apply_workspace_action(WorkspaceAction::GoToTab(0));
    assert_eq!(ws.active_tab_index(), 0);
    ws.apply_workspace_action(WorkspaceAction::PrevTab);
    assert_eq!(ws.active_tab_index(), 2);
    ws.apply_workspace_action(WorkspaceAction::NextTab);
    assert_eq!(ws.active_tab_index(), 0);
    ws.apply_workspace_action(WorkspaceAction::RenameTab(1, "b".to_string()));
    ws.apply_workspace_action(WorkspaceAction::CloseTab(0));
    assert_eq!(labels(&ws), vec![("b".to_string(), true), ("3".to_string(), false)]);
}

#[test]
fn ctrl_shortcuts_manage_tabs() {
    let mut ws = test_workspace();
    assert_eq!(ws.handle_event(ctrl(KeyCode::Char('t'))), EventOutcome::Consumed);
    assert_eq!(ws.tab_count(), 2);
    assert_eq!(ws.handle_event(ctrl(KeyCode::Char('n'))), EventOutcome::Consumed);
    assert_eq!(ws.active_tab_index(), 0);
    assert_eq!(ws.handle_event(ctrl(KeyCode::Left)), EventOutcome::Consumed);
    assert_eq!(ws.active_tab_index(), 1);
    assert_eq!(ws.handle_event(ctrl(KeyCode::Right)), EventOutcome::Consumed);
    assert_eq!(ws.active_tab_index(), 0);
    assert_eq!(ws.handle_event(ctrl(KeyCode::Char('p'))), EventOutcome::Consumed);
    assert_eq!(ws.active_tab_index(), 1);
    assert_eq!(ws.handle_event(ctrl(KeyCode::Char('w'))), EventOutcome::Consumed);
    assert_eq!(ws.tab_count(), 1);
    assert_eq!(ws.active_runtime().seen, 0);
}

#[test]
fn other_events_go_to_the_active_runtime() {
    let mut ws = test_workspace();
    ws.new_tab();
    let plain_t = HypertileEvent::Key(KeyChord::new(KeyCode::Char('t')));
    assert_eq!(ws.handle_event(plain_t), EventOutcome::Ignored);
    let ctrl_shift_t =
        HypertileEvent::Key(KeyChord::with_modifiers(KeyCode::Char('t'), Modifiers::ctrl() | Modifiers::shift()));
    assert_eq!(ws.handle_event(ctrl_shift_t), EventOutcome::Ignored);
    let click = HypertileEvent::Mouse(MouseEvent::new(MouseEventKind::Moved, 1, 1));
    assert_eq!(ws.handle_event(click), EventOutcome::Consumed);
    assert_eq!(ws.tab_count(), 2);
    assert_eq!(ws.active_runtime().seen, 3);
    ws.go_to_tab(0);
    assert_eq!(ws.active_runtime().seen, 0);
    ws.active_runtime_mut().seen = 9;
    assert_eq!(ws.active_runtime().seen, 9);
}

#[test]
fn frame_timing_and_drawing_come_from_the_active_tab() {
    let mut ws = test_workspace();
    ws.new_tab();
    ws.active_runtime_mut().seen = 7;
    assert_eq!(ws.next_frame_in(), Some(Duration::from_millis(7)));
    ws.go_to_tab(0);
    assert_eq!(ws.next_frame_in(), Some(Duration::from_millis(0)));

    let area = Rect { x: 2, y: 1, width: 10, height: 3 };
    let mut buf = Buffer::empty(ratatui::layout::Rect::new(0, 0, 20, 5));
    ws.render(area, &mut buf);
    assert_eq!(ws.active_runtime().drawn, 1);
    assert_eq!(buf.cell((2, 1)).unwrap().symbol(), "x");
    ws.go_to_tab(1);
    assert_eq!(ws.active_runtime().drawn, 0);
    assert_eq!(ws.tab_count(), 2);
}

#[test]
fn tab_ids_order_by_value() {
    assert!(TabId(1) < TabId(2));
    assert_eq!(TabId(4).max(TabId(3)), TabId(4));
}
