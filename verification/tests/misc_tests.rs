use void::text::str_contains;
use void::animation::sequencer::{AnimationEvent, SequenceCursor};
use void::animation::tween::Easing;
use void::ecs::components::{Node, NodeAppearance, NodeType, Selectable};
use void::physics::cells::CellBuckets;
use void::physics::constraints::ConstraintSolver;

#[test]
fn sequence_runs_through_its_steps() {
    let mut c = SequenceCursor::new();
    c.add_step();
    c.add_step();
    assert_eq!(c.len(), 2);
    assert!(!c.is_running());
    assert_eq!(c.begin_update(), None);
    c.start();
    assert!(c.is_running());
    assert_eq!(c.begin_update(), Some(0));
    assert_eq!(c.finish_update(false), AnimationEvent::StepInProgress(0));
    assert_eq!(c.begin_update(), Some(0));
    assert_eq!(c.finish_update(true), AnimationEvent::StepCompleted(0));
    assert!(c.is_running());
    assert_eq!(c.begin_update(), Some(1));
    assert_eq!(c.finish_update(true), AnimationEvent::StepCompleted(1));
    assert!(!c.is_running());
    assert!(c.is_finished());
    assert_eq!(c.begin_update(), None);
}

#[test]
fn empty_sequence_is_finished_once_updated() {
    let mut c = SequenceCursor::default();
    assert!(c.is_finished());
    c.start();
    assert!(!c.is_finished());
    assert_eq!(c.begin_update(), None);
    assert!(c.is_finished());
}

#[test]
fn easing_default() {
    assert_eq!(Easing::default(), Easing::EaseInOutCubic);
}

#[test]
fn ecs_defaults() {
    let n = Node::default();
    assert_eq!(n.node_type, NodeType::Root);
    assert!(n.label.is_empty());
    assert_eq!(NodeType::default(), NodeType::Root);
    let s = Selectable::default();
    assert!(!s.selected && !s.hovered);
    let a = NodeAppearance::default();
    assert_eq!(a.glyph, '\u{25CF}');
    assert_eq!(a.color, (200, 200, 200));
    let m = Node::new(NodeType::Song, "tune".to_string());
    assert_eq!(m.label, "tune");
    assert_eq!(m.depth, 0);
    assert_ne!(m.id, n.id);
}

#[test]
fn solver_rounds() {
    assert_eq!(ConstraintSolver::new(5).iterations(), 5);
    assert_eq!(ConstraintSolver::new(0).iterations(), 0);
}

#[test]
fn cell_buckets_file_and_query() {
    let mut c = CellBuckets::new();
    c.insert(0, 0, 1);
    c.insert(0, 0, 2);
    c.insert(1, -1, 3);
    c.insert(-1, 5, 4);
    c.insert(i32::MAX, i32::MIN, 5);
    // column by column, each column bottom-up, each cell oldest first
    assert_eq!(c.query((0, -1), (1, 0)), vec![1, 2, 3]);
    assert_eq!(c.query((-1, -1), (1, 5)), vec![4, 1, 2, 3]);
    assert_eq!(c.query((0, 0), (0, 0)), vec![1, 2]);
    assert_eq!(c.query((i32::MAX, i32::MIN), (i32::MAX, i32::MIN)), vec![5]);
    // an empty range gives nothing
    assert!(c.query((1, 0), (0, 0)).is_empty());
    assert!(c.query((5, 5), (6, 6)).is_empty());
    c.clear();
    assert!(c.query((-1, -1), (1, 5)).is_empty());
}

#[test]
fn substring_test_on_characters() {
    assert!(str_contains("kanri", "anr"));
    assert!(str_contains("kanri", ""));
    assert!(str_contains("", ""));
    assert!(!str_contains("ab", "abc"));
    assert!(!str_contains("abc", "ac"));
    assert!(str_contains("h\u{e9}llo", "\u{e9}l"));
    assert!(str_contains("kanri", "kanri"));
    assert!(!str_contains("kanri", "kanrii"));
}
