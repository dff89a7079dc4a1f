use minehouse::planner_queue::{PlannerOperation, PlannerQueueState, PlannerTaskStatus};

#[test]
fn equal_operation_is_not_enqueued_twice() {
    let mut queue = PlannerQueueState::new();
    let first = queue.enqueue(PlannerOperation::Putaway { region_id: 1 }, 100);
    assert!(first.is_some());
    assert!(queue.enqueue(PlannerOperation::Putaway { region_id: 1 }, 200).is_none());
    assert!(queue.enqueue(PlannerOperation::Putaway { region_id: 2 }, 300).is_some());
    let snapshot = queue.snapshot();
    assert_eq!(snapshot.pending.len(), 2);
    assert_eq!(snapshot.pending[0].id, first.unwrap());
    assert_eq!(snapshot.pending[0].enqueued_at_ms, 100);
    assert!(snapshot.current.is_none());
}

#[test]
fn running_operation_blocks_its_twin_until_finished() {
    let mut queue = PlannerQueueState::new();
    queue.enqueue(PlannerOperation::ReconcileAll, 1).unwrap();
    queue.enqueue(PlannerOperation::IndexContainer { container_id: 5 }, 2).unwrap();
    let task = queue.next().unwrap();
    assert_eq!(task.operation, PlannerOperation::ReconcileAll);
    assert_eq!(task.status, PlannerTaskStatus::Running);
    assert!(queue.enqueue(PlannerOperation::ReconcileAll, 3).is_none());
    let snapshot = queue.snapshot();
    assert_eq!(snapshot.current.unwrap().operation, PlannerOperation::ReconcileAll);
    assert_eq!(snapshot.pending.len(), 1);
    queue.finish_current();
    assert!(queue.enqueue(PlannerOperation::ReconcileAll, 4).is_some());
    let next = queue.next().unwrap();
    assert_eq!(next.operation, PlannerOperation::IndexContainer { container_id: 5 });
}

#[test]
fn empty_queue_has_no_next_task() {
    let mut queue = PlannerQueueState::new();
    assert!(queue.next().is_none());
    assert!(queue.snapshot().current.is_none());
}

#[test]
fn container_is_for_the_category_holding_most_items() {
    use_categorize();
}

fn use_categorize() {
    use_categories(
        vec![
            (Some(minehouse::category::ItemCategory::Wood), 10),
            (Some(minehouse::category::ItemCategory::Rocks), 64),
            (None, 500),
            (Some(minehouse::category::ItemCategory::Wood), 60),
            (Some(minehouse::category::ItemCategory::Food), -100),
        ],
        Some(minehouse::category::ItemCategory::Wood),
    );
    use_categories(vec![(None, 12)], None);
    use_categories(Vec::new(), None);
    use_categories(
        vec![(Some(minehouse::category::ItemCategory::Food), -3)],
        Some(minehouse::category::ItemCategory::Food),
    );
}

fn use_categories(stacks: Vec<(Option<minehouse::category::ItemCategory>, i32)>, expected: Option<minehouse::category::ItemCategory>) {
    assert_eq!(minehouse::category::categorize(&stacks), expected);
}
