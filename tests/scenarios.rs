use card_lines::card_line::{config_is_degenerate, nearest_slot, slot_offset_x, CardLine, LineError};
use card_lines::dispatcher::{CardLineRequest, CardLineRequestType, CardTable, RequestError};
use card_lines::dragging::{drag_update, DragMove, DragPhase, PointerInput};
use card_lines::frame::{CardState, CardsCore, CardsPlugin};
use card_lines::geometry::{div_toward_zero, rotate, unrotate, Pose, ROT_ONE};
use card_lines::hovering::{is_under_pointer, resolve_hover, HoverCandidate, HoverState};
use card_lines::mover::{step_component, step_pose};
use card_lines::namer::CardNamer;

const HOVER: i64 = 30;
const FAR: i64 = 900_000_000;

fn idle_at(x: i64, y: i64) -> PointerInput {
    PointerInput { x, y, button_down: false, just_pressed: false, just_released: false }
}

fn press_at(x: i64, y: i64) -> PointerInput {
    PointerInput { x, y, button_down: true, just_pressed: true, just_released: false }
}

fn hold_at(x: i64, y: i64) -> PointerInput {
    PointerInput { x, y, button_down: true, just_pressed: false, just_released: false }
}

fn release_at(x: i64, y: i64) -> PointerInput {
    PointerInput { x, y, button_down: false, just_pressed: false, just_released: true }
}

fn card(id: u64) -> CardState {
    CardState {
        card: id,
        pose: Pose { x: 0, y: -5000, z: 0, cos: ROT_ONE, sin: 0 },
        target: None,
        width: 80,
        height: 120,
        scale: 1000,
    }
}

fn add(line: u64, c: u64) -> CardLineRequest {
    CardLineRequest { line, request_type: CardLineRequestType::AddToCardLine { card_entity: c } }
}

fn core_with_line(max: usize, gap: i64, raise: i64, cards: u64) -> CardsCore {
    let plugin = CardsPlugin { card_hover_height: HOVER, print_debug_logs: true };
    let mut core = plugin.build();
    assert!(core.table.add_line(0, CardLine::new(Pose::identity(), max, gap, raise, HOVER)));
    for c in 0..cards {
        assert!(core.add_card(card(c)));
    }
    core
}

fn target_of(core: &CardsCore, c: u64) -> Pose {
    let k = core.find_card(c).unwrap();
    core.cards[k].target.unwrap()
}

fn pose_of(core: &CardsCore, c: u64) -> Pose {
    let k = core.find_card(c).unwrap();
    core.cards[k].pose
}

/// Four cards added to a line of four, one frame: the slots straddle the origin.
fn filled_core() -> CardsCore {
    let mut core = core_with_line(4, 100, 40, 4);
    let reqs = vec![add(0, 0), add(0, 1), add(0, 2), add(0, 3)];
    let report = core.tick(1000, idle_at(FAR, FAR), &reqs, 60);
    assert_eq!(report.outcomes, vec![Ok(()), Ok(()), Ok(()), Ok(())]);
    core
}

#[test]
fn single_line_fill() {
    let core = filled_core();
    let xs: Vec<i64> = (0..4).map(|c| target_of(&core, c).x).collect();
    assert_eq!(xs, vec![-150, -50, 50, 150]);
    for c in 0..4 {
        assert_eq!(target_of(&core, c).y, 0);
    }
    assert_eq!(core.table.lines[0].members, vec![0, 1, 2, 3]);
}

#[test]
fn overflow_is_refused() {
    let mut core = filled_core();
    assert!(core.add_card(card(4)));
    let report = core.tick(1000, idle_at(FAR, FAR), &vec![add(0, 4)], 60);
    assert_eq!(report.outcomes, vec![Err(RequestError::LineFull)]);
    assert_eq!(core.table.lines[0].members.len(), 4);
    assert!(!core.table.lines[0].members.contains(&4));
}

#[test]
fn raise_and_lower() {
    let mut core = filled_core();
    let raise = CardLineRequest { line: 0, request_type: CardLineRequestType::RaiseCardLine };
    core.tick(1000, idle_at(FAR, FAR), &vec![raise], 60);
    for c in 0..4 {
        assert_eq!(target_of(&core, c).y, 40);
    }
    let lower = CardLineRequest { line: 0, request_type: CardLineRequestType::LowerCardLine };
    core.tick(1000, idle_at(FAR, FAR), &vec![lower], 60);
    for c in 0..4 {
        assert_eq!(target_of(&core, c).y, 0);
    }
}

#[test]
fn hover_lifts_one_card() {
    let mut core = filled_core();
    core.tick(1000, idle_at(50, 0), &vec![], 60);
    assert_eq!(core.hover.hovered, Some(2));
    assert_eq!(target_of(&core, 2).y, HOVER);
    for c in [0, 1, 3] {
        assert_eq!(target_of(&core, c).y, 0);
    }
    core.tick(1000, idle_at(FAR, FAR), &vec![], 60);
    assert_eq!(core.hover.hovered, None);
    assert_eq!(target_of(&core, 2).y, 0);
}

#[test]
fn drag_reorders_within_line() {
    let mut core = filled_core();
    core.tick(1000, idle_at(-50, 0), &vec![], 60);
    assert_eq!(core.hover.hovered, Some(1));
    core.tick(1000, press_at(-50, 0), &vec![], 60);
    assert_eq!(core.drag, DragPhase::Pressed { card: 1, x: -50, y: 0 });
    let report = core.tick(1000, hold_at(70, 0), &vec![], 60);
    assert_eq!(core.drag, DragPhase::Dragging { card: 1 });
    assert_eq!(report.drag_move, DragMove::Reordered { line: 0, from: 1, to: 2 });
    assert_eq!(core.table.lines[0].members, vec![0, 2, 1, 3]);
    core.tick(1000, release_at(FAR, FAR), &vec![], 60);
    assert_eq!(core.drag, DragPhase::Dropping { card: 1 });
    let t = target_of(&core, 1);
    assert_eq!((t.x, t.y, t.z), (50, 0, 0));
    assert_eq!(pose_of(&core, 1), t);
    core.tick(1000, idle_at(FAR, FAR), &vec![], 60);
    assert_eq!(core.drag, DragPhase::Idle);
}

#[test]
fn drag_transfers_between_lines() {
    let plugin = CardsPlugin { card_hover_height: HOVER, print_debug_logs: false };
    let mut core = plugin.build();
    let o1 = Pose { x: 0, y: 300, z: 0, cos: ROT_ONE, sin: 0 };
    assert!(core.table.add_line(10, CardLine::new(Pose::identity(), 2, 100, 0, HOVER)));
    assert!(core.table.add_line(11, CardLine::new(o1, 2, 100, 0, HOVER)));
    for c in 0..3 {
        assert!(core.add_card(card(c)));
    }
    core.tick(1000, idle_at(FAR, FAR), &vec![add(10, 0), add(10, 1), add(11, 2)], 60);
    core.tick(1000, idle_at(-50, 0), &vec![], 60);
    assert_eq!(core.hover.hovered, Some(0));
    core.tick(1000, press_at(-50, 0), &vec![], 60);
    let report = core.tick(1000, hold_at(40, 300), &vec![], 60);
    assert_eq!(report.drag_move, DragMove::Transferred { line: 1 });
    core.tick(1000, release_at(FAR, FAR), &vec![], 60);
    assert_eq!(core.table.lines[0].members, vec![1]);
    assert_eq!(core.table.lines[1].members, vec![2, 0]);
    let t = target_of(&core, 0);
    assert_eq!((t.x, t.y), (50, 300));
}

#[test]
fn card_is_in_one_line_after_re_adding() {
    let mut table = CardTable::new();
    assert!(table.add_line(1, CardLine::new(Pose::identity(), 3, 10, 0, 0)));
    assert!(table.add_line(2, CardLine::new(Pose::identity(), 3, 10, 0, 0)));
    let out = table.dispatch(&vec![add(1, 7), add(2, 7), add(2, 7)]);
    assert_eq!(out, vec![Ok(()), Ok(()), Ok(())]);
    assert_eq!(table.lines[0].members, Vec::<u64>::new());
    assert_eq!(table.lines[1].members, vec![7]);
}

#[test]
fn lines_never_exceed_capacity() {
    let mut table = CardTable::new();
    assert!(table.add_line(1, CardLine::new(Pose::identity(), 2, 10, 0, 0)));
    let out = table.dispatch(&vec![add(1, 1), add(1, 2), add(1, 3), add(1, 4)]);
    assert_eq!(out[2], Err(RequestError::LineFull));
    assert_eq!(out[3], Err(RequestError::LineFull));
    assert_eq!(table.lines[0].members, vec![1, 2]);
}

#[test]
fn members_keep_insertion_order() {
    let mut table = CardTable::new();
    assert!(table.add_line(5, CardLine::new(Pose::identity(), 5, 10, 0, 0)));
    table.dispatch(&vec![add(5, 9), add(5, 4), add(5, 6)]);
    assert_eq!(table.lines[0].members, vec![9, 4, 6]);
    let rm = CardLineRequest {
        line: 5,
        request_type: CardLineRequestType::RemoveFromCardLine { card_entity: 4 },
    };
    table.dispatch(&vec![rm, add(5, 1)]);
    assert_eq!(table.lines[0].members, vec![9, 6, 1]);
}

#[test]
fn request_errors() {
    let mut table = CardTable::new();
    assert!(table.add_line(5, CardLine::new(Pose::identity(), 5, 10, 0, 0)));
    let rm = CardLineRequest {
        line: 5,
        request_type: CardLineRequestType::RemoveFromCardLine { card_entity: 4 },
    };
    assert_eq!(table.apply_request(rm), Err(RequestError::NotMember));
    assert_eq!(table.apply_request(add(6, 1)), Err(RequestError::UnknownEntity));
    assert!(!table.add_line(5, CardLine::new(Pose::identity(), 1, 10, 0, 0)));
    assert!(table.remove_line(5));
    assert!(!table.remove_line(5));
}

#[test]
fn line_operations() {
    let mut line = CardLine::new(Pose::identity(), 3, 10, 0, 0);
    assert_eq!(line.add(1), Ok(()));
    assert_eq!(line.insert(2, 0), Ok(()));
    assert_eq!(line.insert(3, 99), Ok(()));
    assert_eq!(line.members, vec![2, 1, 3]);
    assert_eq!(line.add(4), Err(LineError::LineFull));
    assert_eq!(line.remove(9), Err(LineError::NotMember));
    assert_eq!(line.remove(1), Ok(()));
    assert_eq!(line.members, vec![2, 3]);
    line.raise();
    line.raise();
    assert!(line.is_raised);
    line.lower();
    assert!(!line.is_raised);
    assert_eq!(line.index_of(3), Some(1));
}

#[test]
fn degenerate_line_is_clamped() {
    assert!(config_is_degenerate(0, 10));
    assert!(config_is_degenerate(3, 0));
    assert!(!config_is_degenerate(3, 1));
    let line = CardLine::new(Pose::identity(), 0, -4, 0, 0);
    assert_eq!(line.max_cards, 1);
    assert_eq!(line.card_origin_gap, 1);
}

#[test]
fn layout_edge_cases() {
    let mut line = CardLine::new(Pose { x: 7, y: 9, z: 3, cos: ROT_ONE, sin: 0 }, 4, 60, 0, 0);
    assert!(line.layout(None).is_empty());
    line.add(1).unwrap();
    let one = line.layout(None);
    assert_eq!(one, vec![Pose { x: 7, y: 9, z: 3, cos: ROT_ONE, sin: 0 }]);
    line.add(2).unwrap();
    let two: Vec<i64> = line.layout(None).iter().map(|p| p.x).collect();
    assert_eq!(two, vec![7 - 30, 7 + 30]);
}

#[test]
fn layout_turns_with_origin() {
    let o = Pose { x: 300, y: 0, z: 0, cos: 0, sin: ROT_ONE };
    let mut line = CardLine::new(o, 4, 60, 20, 0);
    line.add(1).unwrap();
    line.add(2).unwrap();
    line.raise();
    let p = line.layout(None);
    assert_eq!((p[0].x, p[0].y), (300 - 20, -30));
    assert_eq!((p[1].x, p[1].y), (300 - 20, 30));
}

#[test]
fn layout_is_pure() {
    let mut a = CardLine::new(Pose::identity(), 4, 50, 10, 5);
    let mut b = CardLine::new(Pose::identity(), 4, 50, 10, 5);
    a.add(1).unwrap();
    a.add(2).unwrap();
    b.add(8).unwrap();
    b.add(9).unwrap();
    assert_eq!(a.layout(Some(1)), a.layout(Some(1)));
    assert_eq!(a.layout(Some(1)), b.layout(Some(1)));
    assert_ne!(a.layout(Some(1)), a.layout(None));
}

#[test]
fn geometry_helpers() {
    assert_eq!(div_toward_zero(-7, 2), -3);
    assert_eq!(div_toward_zero(7, 2), 3);
    assert_eq!(rotate(0, ROT_ONE, 10, 0), (0, 10));
    assert_eq!(unrotate(0, ROT_ONE, 0, 10), (10, 0));
    assert_eq!(slot_offset_x(4, 0, 100), -150);
    assert_eq!(slot_offset_x(3, 2, 25), 25);
    assert_eq!(nearest_slot(4, 100, 70), 2);
    assert_eq!(nearest_slot(4, 100, -1000), 0);
}

#[test]
fn mover_never_recedes() {
    let t = Pose { x: 1000, y: -1000, z: 0, cos: ROT_ONE, sin: 0 };
    let mut p = Pose { x: 0, y: 0, z: 0, cos: ROT_ONE, sin: 0 };
    let mut last = i64::MAX;
    for _ in 0..20 {
        let (n, _) = step_pose(p, t, 500, 2);
        let d = (t.x - n.x).abs() + (t.y - n.y).abs();
        assert!(d <= last);
        last = d;
        p = n;
    }
    assert_eq!(p, t);
    assert_eq!(step_component(0, 1000, 500), 500);
    assert_eq!(step_component(0, -1000, 250), -250);
    assert_eq!(step_component(5, 9, 0), 5);
    let (snap, done) = step_pose(Pose { x: 1000, y: -1000, z: 0, cos: ROT_ONE, sin: 0 }, t, 0, 1);
    assert!(done);
    assert_eq!(snap, t);
}

#[test]
fn hover_tie_breaks() {
    let base = HoverCandidate {
        card: 1,
        pose: Pose { x: 0, y: 0, z: 0, cos: ROT_ONE, sin: 0 },
        width: 100,
        height: 100,
        scale: 1000,
        slot: 0,
        line_rank: 0,
    };
    let higher_slot = HoverCandidate { card: 2, slot: 3, ..base };
    let later_line = HoverCandidate { card: 3, line_rank: 5, ..base };
    let cards = vec![base, higher_slot, later_line];
    assert_eq!(resolve_hover(&cards, 10, 10, None), Some(2));
    assert_eq!(resolve_hover(&vec![base, later_line], 10, 10, None), Some(3));
    assert_eq!(resolve_hover(&cards, 10, 10, Some(1)), Some(1));
    assert_eq!(resolve_hover(&cards, 10, 10, Some(9)), None);
    assert_eq!(resolve_hover(&cards, 500, 10, None), None);
    assert!(is_under_pointer(&base, 50, -50));
    assert!(!is_under_pointer(&base, 51, 0));
    let half = HoverCandidate { scale: 500, ..base };
    assert!(!is_under_pointer(&half, 30, 0));
    let mut state = HoverState::new();
    assert_eq!(state.set(Some(1)), None);
    assert_eq!(state.set(Some(2)), Some(1));
    assert_eq!(state.hovered, Some(2));
}

#[test]
fn drag_state_machine() {
    let idle = DragPhase::Idle;
    assert_eq!(idle.next(press_at(0, 0), None, 4), DragPhase::Idle);
    let pressed = idle.next(press_at(0, 0), Some(3), 4);
    assert_eq!(pressed, DragPhase::Pressed { card: 3, x: 0, y: 0 });
    assert_eq!(pressed.next(hold_at(3, 0), None, 4), pressed);
    assert_eq!(pressed.next(release_at(1, 0), None, 4), DragPhase::Idle);
    let dragging = pressed.next(hold_at(5, 0), None, 4);
    assert_eq!(dragging, DragPhase::Dragging { card: 3 });
    assert_eq!(dragging.dragged(), Some(3));
    assert_eq!(pressed.dragged(), None);
    let dropping = dragging.next(release_at(5, 0), None, 4);
    assert_eq!(dropping, DragPhase::Dropping { card: 3 });
    assert_eq!(dropping.next(idle_at(5, 0), Some(3), 4), DragPhase::Idle);
}

#[test]
fn orphan_drag_without_target_line_stays() {
    let mut table = CardTable::new();
    assert!(table.add_line(1, CardLine::new(Pose::identity(), 2, 100, 0, 10)));
    assert_eq!(drag_update(&mut table, 4, 0, 5000, 60), DragMove::Stayed);
    assert_eq!(drag_update(&mut table, 4, 10, 0, 60), DragMove::Transferred { line: 0 });
    assert_eq!(table.lines[0].members, vec![4]);
}

#[test]
fn dropped_orphan_stays_where_released() {
    let plugin = CardsPlugin { card_hover_height: HOVER, print_debug_logs: false };
    let mut core = plugin.build();
    let line = plugin.new_line(Pose::identity(), 2, 100, 0);
    assert_eq!(line.card_hover_height, HOVER);
    assert!(core.table.add_line(0, line));
    let mut c = card(0);
    c.pose = Pose { x: 1000, y: 1000, z: 0, cos: ROT_ONE, sin: 0 };
    assert!(core.add_card(c));
    core.tick(500, idle_at(1000, 1000), &vec![], 60);
    assert_eq!(core.hover.hovered, Some(0));
    core.tick(500, press_at(1000, 1000), &vec![], 60);
    let report = core.tick(500, hold_at(1200, 1000), &vec![], 60);
    assert_eq!(report.drag_move, DragMove::Stayed);
    assert_eq!(pose_of(&core, 0).x, 1100);
    core.tick(500, release_at(1200, 1000), &vec![], 60);
    let t = target_of(&core, 0);
    assert_eq!((t.x, t.y), (1100, 1000));
    assert_eq!(pose_of(&core, 0), t);
    assert!(core.table.lines[0].members.is_empty());
}

#[test]
fn destroyed_card_leaves_its_line() {
    let mut core = filled_core();
    core.destroy_card(1);
    assert_eq!(core.table.lines[0].members, vec![0, 2, 3]);
    assert!(core.find_card(1).is_none());
    core.tick(1000, idle_at(FAR, FAR), &vec![], 60);
    assert_eq!(target_of(&core, 0).x, -100);
    assert!(core.table.remove_line(0));
    assert!(core.table.lines.is_empty());
    assert!(core.find_card(0).is_some());
}

#[test]
fn request_for_untracked_card_is_dropped() {
    let mut core = core_with_line(4, 100, 0, 1);
    let report = core.tick(1000, idle_at(FAR, FAR), &vec![add(0, 0), add(0, 42), add(7, 0)], 60);
    assert_eq!(
        report.outcomes,
        vec![Ok(()), Err(RequestError::UnknownEntity), Err(RequestError::UnknownEntity)]
    );
    assert_eq!(core.table.lines[0].members, vec![0]);
}

#[test]
fn namer_counts_up() {
    let mut namer = CardNamer::new();
    assert_eq!(namer.next_label(), Some(1));
    assert_eq!(namer.next_label(), Some(2));
    let mut spent = CardNamer { named: u64::MAX };
    assert_eq!(spent.next_label(), None);
}

#[test]
fn dragged_card_keeps_its_line_until_dropped() {
    let mut core = filled_core();
    core.tick(1000, idle_at(-50, 0), &vec![], 60);
    core.tick(1000, press_at(-50, 0), &vec![], 60);
    core.tick(1000, hold_at(-50, 40), &vec![], 60);
    assert_eq!(core.drag, DragPhase::Dragging { card: 1 });
    let rm = CardLineRequest {
        line: 0,
        request_type: CardLineRequestType::RemoveFromCardLine { card_entity: 1 },
    };
    let raise = CardLineRequest { line: 0, request_type: CardLineRequestType::RaiseCardLine };
    let report = core.tick(1000, hold_at(-50, 40), &vec![rm, raise], 60);
    assert_eq!(report.outcomes, vec![Err(RequestError::CardDragged), Ok(())]);
    assert_eq!(core.table.lines[0].members, vec![0, 1, 2, 3]);
    assert!(core.table.lines[0].is_raised);
    let t = target_of(&core, 1);
    assert_eq!((t.x, t.y, t.z), (-50, 40, 10));
}

#[test]
fn removed_line_leaves_cards_where_they_are() {
    let mut core = filled_core();
    core.tick(500, idle_at(FAR, FAR), &vec![], 60);
    assert!(core.remove_line(0));
    assert!(!core.remove_line(0));
    for c in 0..4 {
        assert_eq!(target_of(&core, c), pose_of(&core, c));
    }
    assert!(core.table.lines.is_empty());
}

#[test]
fn large_capacity_is_clamped() {
    let line = CardLine::new(Pose::identity(), 5000, 10, 0, 0);
    assert_eq!(line.max_cards, 1000);
}
