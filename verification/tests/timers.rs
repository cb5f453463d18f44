use my_redis::executor::{MiniTokio, TaskFuture};
use my_redis::tasks::{add_numbers, process_task};
use my_redis::timer::{Delay, MySelect, PollState, Task, TimedFuture};

#[test]
fn delay_is_ready_from_its_deadline() {
    let d = Delay::new(1_000, 500);
    assert_eq!(d.poll(1_000), PollState::Pending);
    assert_eq!(d.poll(1_499), PollState::Pending);
    assert_eq!(d.poll(1_500), PollState::Ready);
    assert_eq!(d.poll(9_999), PollState::Ready);
}

#[test]
fn select_is_ready_when_any_branch_is() {
    let mut s = MySelect::new(vec![Delay::new(0, 500), Delay::new(0, 150), Delay::new(0, 300)]);
    assert_eq!(s.poll(100), PollState::Pending);
    assert_eq!(s.poll(149), PollState::Pending);
    assert_eq!(s.poll(150), PollState::Ready);
    assert_eq!(s.poll(400), PollState::Ready);
}

#[test]
fn empty_select_never_completes() {
    let mut s: MySelect<Delay> = MySelect::new(vec![]);
    assert_eq!(s.poll(u64::MAX), PollState::Pending);
}

#[test]
fn task_polls_its_future() {
    let mut t = Task::new(Delay::new(10, 10), ());
    assert_eq!(t.poll(19), PollState::Pending);
    assert_eq!(t.poll(20), PollState::Ready);
}

#[test]
fn task_future_is_not_polled_after_completion() {
    let mut t = TaskFuture::new(Delay::new(0, 5));
    t.poll(1);
    t.poll(5);
    t.poll(0);
    let mut ex = MiniTokio::new();
    let id = ex.spawn(Delay::new(0, 5));
    assert!(!ex.all_complete());
    assert_eq!(ex.run(1), vec![id]);
    ex.schedule(id);
    assert_eq!(ex.run(10), Vec::<usize>::new());
    assert!(ex.all_complete());
    ex.schedule(id);
    assert_eq!(ex.run(0), Vec::<usize>::new());
}

#[test]
fn executor_polls_scheduled_tasks_in_order() {
    let mut ex = MiniTokio::new();
    let a = ex.spawn(Delay::new(0, 10));
    let b = ex.spawn(Delay::new(0, 30));
    let c = ex.spawn(Delay::new(0, 20));
    assert_eq!(ex.run(15), vec![b, c]);
    assert_eq!(ex.run(100), Vec::<usize>::new());
    ex.schedule(c);
    ex.schedule(b);
    assert_eq!(ex.run(25), vec![b]);
    ex.schedule(b);
    ex.schedule(b);
    assert_eq!(ex.run(26), vec![b, b]);
    let _ = a;
}

#[test]
fn add_numbers_sums() {
    assert_eq!(add_numbers(10, 20), 30);
    assert_eq!(add_numbers(0, u32::MAX), u32::MAX);
}

#[test]
fn process_task_refuses_fail_only() {
    assert_eq!(process_task("fail"), Err("Invalid input"));
    assert_eq!(process_task("success_task"), Ok(()));
    assert_eq!(process_task("failure"), Ok(()));
}
