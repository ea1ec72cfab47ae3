use fang::poller::{Poller, PollerCommand};

fn id(text: &str) -> Vec<u8> {
    text.as_bytes().to_vec()
}

/// The handlers that are run in a pass, in order of their values, and the poller after it.
fn pass(
    poller: Poller<u32>,
    now: u128,
    command: Option<PollerCommand<u32>>,
) -> (Poller<u32>, Vec<u32>) {
    let (mut pass, due) = poller.begin(now, command);
    let mut run: Vec<u32> = due.into_iter().map(|i| *pass.handler_mut(i)).collect();
    run.sort();
    (pass.end(), run)
}

#[test]
fn nothing_to_wait_for_without_tasks() {
    let poller = Poller::<u32>::new();
    assert_eq!(poller.next_wakeup(), None);
    assert_eq!(poller.timeout(5), None);
    let (poller, run) = pass(poller, 5, None);
    assert!(run.is_empty());
    assert_eq!(poller.next_wakeup(), None);
}

#[test]
fn task_runs_an_interval_after_it_was_registered() {
    let mut poller = Poller::new();
    poller.register(id("a"), 100, 1, 1000);
    assert_eq!(poller.next_wakeup(), Some(1100));
    assert_eq!(poller.timeout(1000), Some(100));
    assert_eq!(poller.timeout(1099), Some(1));
    assert_eq!(poller.timeout(1100), Some(0));
    assert_eq!(poller.timeout(5000), Some(0));
    let (poller, run) = pass(poller, 1099, None);
    assert!(run.is_empty());
    let (_, run) = pass(poller, 1100, None);
    assert_eq!(run, vec![1]);
}

#[test]
fn interval_counts_from_the_run() {
    let mut poller = Poller::new();
    poller.register(id("a"), 100, 1, 0);
    let (poller, run) = pass(poller, 150, None);
    assert_eq!(run, vec![1]);
    assert_eq!(poller.next_wakeup(), Some(250));
    let (poller, run) = pass(poller, 249, None);
    assert!(run.is_empty());
    let (poller, run) = pass(poller, 250, None);
    assert_eq!(run, vec![1]);
    assert_eq!(poller.next_wakeup(), Some(350));
}

#[test]
fn tasks_that_are_due_run_once_each() {
    let mut poller = Poller::new();
    poller.register(id("a"), 100, 1, 0);
    poller.register(id("b"), 50, 2, 0);
    poller.register(id("c"), 300, 3, 0);
    assert_eq!(poller.next_wakeup(), Some(50));
    let (poller, run) = pass(poller, 120, None);
    assert_eq!(run, vec![1, 2]);
    assert_eq!(poller.next_wakeup(), Some(170));
    let (_, run) = pass(poller, 300, None);
    assert_eq!(run, vec![1, 2, 3]);
}

#[test]
fn task_takes_the_place_of_one_with_its_id() {
    let mut poller = Poller::new();
    poller.register(id("a"), 100, 1, 0);
    poller.register(id("b"), 100, 2, 0);
    poller.register(id("a"), 10, 3, 50);
    assert_eq!(poller.next_wakeup(), Some(60));
    let (_, run) = pass(poller, 100, None);
    assert_eq!(run, vec![2, 3]);
}

#[test]
fn task_that_was_taken_out_does_not_run() {
    let mut poller = Poller::new();
    poller.register(id("a"), 100, 1, 0);
    poller.register(id("b"), 200, 2, 0);
    poller.unregister(&id("a"));
    poller.unregister(&id("c"));
    assert_eq!(poller.next_wakeup(), Some(200));
    let (mut poller, run) = pass(poller, 1000, None);
    assert_eq!(run, vec![2]);
    poller.unregister(&id("b"));
    assert_eq!(poller.next_wakeup(), None);
}

#[test]
fn handlers_keep_what_they_change() {
    let mut poller = Poller::new();
    poller.register(id("a"), 10, 1, 0);
    let (mut begun, due) = poller.begin(10, None);
    for i in due {
        *begun.handler_mut(i) += 1;
    }
    let (_, run) = pass(begun.end(), 20, None);
    assert_eq!(run, vec![2]);
}

#[test]
fn commands_act_at_the_end_of_a_pass() {
    let register =
        |interval, handler| Some(PollerCommand::Register { id: id("a"), interval, handler });
    let (poller, run) = pass(Poller::new(), 3, register(7, 1));
    assert!(run.is_empty());
    assert_eq!(poller.next_wakeup(), Some(10));
    let (poller, run) = pass(poller, 5, register(9, 2));
    assert!(run.is_empty());
    assert_eq!(poller.next_wakeup(), Some(14));
    let (poller, run) = pass(poller, 6, Some(PollerCommand::Unregister { id: id("a") }));
    assert!(run.is_empty());
    assert_eq!(poller.next_wakeup(), None);
}

#[test]
fn due_task_runs_before_the_command_acts() {
    let mut poller = Poller::new();
    poller.register(id("a"), 10, 1, 0);
    poller.register(id("b"), 10, 2, 0);
    let (poller, run) = pass(poller, 10, Some(PollerCommand::Unregister { id: id("a") }));
    assert_eq!(run, vec![1, 2]);
    let replace = PollerCommand::Register { id: id("b"), interval: 1, handler: 3 };
    let (poller, run) = pass(poller, 20, Some(replace));
    assert_eq!(run, vec![2]);
    assert_eq!(poller.next_wakeup(), Some(21));
    let (_, run) = pass(poller, 21, None);
    assert_eq!(run, vec![3]);
}

#[test]
fn task_without_an_interval_is_always_due() {
    let mut poller = Poller::new();
    poller.register(id(""), 0, 1, 5);
    assert_eq!(poller.timeout(5), Some(0));
    let (poller, run) = pass(poller, 5, None);
    assert_eq!(run, vec![1]);
    let (_, run) = pass(poller, 5, None);
    assert_eq!(run, vec![1]);
}
