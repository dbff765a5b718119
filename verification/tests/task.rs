use process_core::syscall::process::{sys_exit, sys_task_info, sys_yield, TaskInfo};
use process_core::syscall::task::{TaskControlBlock, TaskStatus, MAX_SYSCALL_NUM};

const MS: usize = 12_500;

#[test]
fn a_fresh_task_has_counted_nothing() {
    let task = TaskControlBlock::default();
    assert_eq!(task.task_status, TaskStatus::UnInit);
    assert_eq!(task.time_begin, None);
    assert_eq!(task.syscall_times.len(), MAX_SYSCALL_NUM);
    assert!(task.syscall_times.iter().all(|&n| n == 0));
}

#[test]
fn each_call_raises_its_own_entry_by_one() {
    let mut task = TaskControlBlock::default();
    task.record_syscall(64);
    task.record_syscall(64);
    task.record_syscall(93);
    task.record_syscall(0);
    task.record_syscall(MAX_SYSCALL_NUM - 1);
    assert_eq!(task.syscall_times[64], 2);
    assert_eq!(task.syscall_times[93], 1);
    assert_eq!(task.syscall_times[0], 1);
    assert_eq!(task.syscall_times[MAX_SYSCALL_NUM - 1], 1);
    let total: u32 = task.syscall_times.iter().sum();
    assert_eq!(total, 5);
}

#[test]
fn counting_a_call_leaves_status_and_time_alone() {
    let mut task = TaskControlBlock::default();
    task.task_status = TaskStatus::Running;
    task.record_first_time(8 * MS);
    task.record_syscall(169);
    assert_eq!(task.task_status, TaskStatus::Running);
    assert_eq!(task.time_begin, Some(8));
}

#[test]
fn first_scheduled_time_is_set_once() {
    let mut task = TaskControlBlock::default();
    task.record_first_time(5 * MS);
    assert_eq!(task.time_begin, Some(5));
    task.record_first_time(9 * MS);
    assert_eq!(task.time_begin, Some(5));
    task.record_first_time(0);
    assert_eq!(task.time_begin, Some(5));
}

#[test]
fn first_scheduled_time_may_be_zero() {
    let mut task = TaskControlBlock::default();
    task.record_first_time(0);
    assert_eq!(task.time_begin, Some(0));
    task.record_first_time(77 * MS);
    assert_eq!(task.time_begin, Some(0));
}

#[test]
fn elapsed_time_is_now_minus_first_scheduled() {
    let mut task = TaskControlBlock::default();
    task.record_first_time(100 * MS);
    assert_eq!(task.real_time(100 * MS), 0);
    assert_eq!(task.real_time(100 * MS + MS - 1), 0);
    assert_eq!(task.real_time(350 * MS), 250);
}

#[test]
fn elapsed_time_of_a_task_never_scheduled_is_zero() {
    let mut task = TaskControlBlock::default();
    assert_eq!(task.real_time(0), 0);
    assert_eq!(task.real_time(1_000_000 * MS), 0);
}

#[test]
fn elapsed_time_does_not_run_backwards() {
    let mut task = TaskControlBlock::default();
    task.record_first_time(10 * MS);
    let mut last: usize = 0;
    let mut ticks: usize = 10 * MS;
    while ticks < 40 * MS {
        let now: usize = task.real_time(ticks);
        assert!(now >= last);
        last = now;
        ticks += 3_000;
    }
    assert_eq!(last, 29);
}

#[test]
fn task_info_is_a_snapshot_of_the_task() {
    let mut task = TaskControlBlock::default();
    task.task_status = TaskStatus::Running;
    task.record_first_time(20 * MS);
    task.record_syscall(64);
    task.record_syscall(410);
    task.record_syscall(410);
    let mut info = TaskInfo {
        status: TaskStatus::UnInit,
        syscall_times: [9; MAX_SYSCALL_NUM],
        time: 9,
    };
    assert_eq!(sys_task_info(&mut task, 520 * MS, &mut info), 0);
    assert_eq!(info.status, TaskStatus::Running);
    assert_eq!(info.time, 500);
    assert_eq!(info.syscall_times[64], 1);
    assert_eq!(info.syscall_times[410], 2);
    assert_eq!(info.syscall_times[0], 0);
    assert_eq!(info.syscall_times.iter().sum::<u32>(), 3);
    assert_eq!(task.time_begin, Some(20));
    assert_eq!(task.syscall_times[410], 2);
}

#[test]
fn repeated_task_info_reports_growing_time() {
    let mut task = TaskControlBlock::default();
    task.task_status = TaskStatus::Running;
    task.record_first_time(MS);
    let mut info = TaskInfo {
        status: TaskStatus::UnInit,
        syscall_times: [0; MAX_SYSCALL_NUM],
        time: 0,
    };
    sys_task_info(&mut task, 2 * MS, &mut info);
    let first: usize = info.time;
    sys_task_info(&mut task, 2 * MS, &mut info);
    let second: usize = info.time;
    sys_task_info(&mut task, 9 * MS, &mut info);
    let third: usize = info.time;
    assert_eq!((first, second, third), (1, 1, 8));
}

#[test]
fn exit_ends_the_task() {
    let mut task = TaskControlBlock::default();
    task.task_status = TaskStatus::Running;
    task.record_syscall(93);
    sys_exit(&mut task, -3);
    assert_eq!(task.task_status, TaskStatus::Exited);
    assert_eq!(task.syscall_times[93], 1);
}

#[test]
fn yield_makes_a_running_task_ready() {
    let mut task = TaskControlBlock::default();
    task.task_status = TaskStatus::Running;
    assert_eq!(sys_yield(&mut task), 0);
    assert_eq!(task.task_status, TaskStatus::Ready);
}

#[test]
fn yield_never_revives_an_exited_task() {
    let mut task = TaskControlBlock::default();
    task.task_status = TaskStatus::Exited;
    assert_eq!(sys_yield(&mut task), 0);
    assert_eq!(task.task_status, TaskStatus::Exited);
    let mut fresh = TaskControlBlock::default();
    assert_eq!(sys_yield(&mut fresh), 0);
    assert_eq!(fresh.task_status, TaskStatus::UnInit);
}
