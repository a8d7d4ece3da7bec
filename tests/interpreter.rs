use kml_kernel::api::Api;
use kml_kernel::error::Error;
use kml_kernel::event::Event;
use kml_kernel::kernel::Kernel;
use kml_kernel::parse::lexer::TokenKind;
use kml_kernel::parse::{EventAction, EventDef, Identifier, SchedulerType};
use kml_kernel::scheduler::{pick_ready, Scheduler};
use kml_kernel::state::{AbstractState, TaskControlBlock, TaskStatus};

fn event(name: &str, body: Vec<EventAction>) -> Event {
    Event::new(EventDef { name: Identifier(name.to_string()), body })
}

fn tcb(id: u32, status: TaskStatus) -> TaskControlBlock {
    TaskControlBlock { id, status }
}

fn fifo_kernel(events: Vec<Event>) -> Kernel {
    Kernel::new(events, Scheduler::new(SchedulerType::Fifo))
}

#[test]
fn new_kernel_runs_task_zero() {
    let k = fifo_kernel(vec![]);
    assert_eq!(k.state().current_task, 0);
    assert_eq!(k.state().tasks, vec![tcb(0, TaskStatus::Running)]);
    assert_eq!(k.shutdown_code(), None);
}

#[test]
fn boot_event_twice() {
    let mut k = fifo_kernel(vec![event("boot", vec![EventAction::NewTask, EventAction::Sched])]);
    assert_eq!(k.execute("boot"), Ok(()));
    assert_eq!(k.state().tasks.len(), 2);
    assert_eq!(k.state().current_task, 1);
    assert_eq!(k.state().tasks[1], tcb(1, TaskStatus::Running));
    // Sched does not put the previously running task back to ready.
    assert_eq!(k.state().tasks[0], tcb(0, TaskStatus::Running));
    assert_eq!(k.execute("boot"), Ok(()));
    assert_eq!(k.state().tasks.len(), 3);
    assert_eq!(k.state().current_task, 2);
    assert_eq!(k.state().tasks[2], tcb(2, TaskStatus::Running));
    assert_eq!(k.execute("other"), Err(Error::EventNotFound));
    assert_eq!(k.execute("Boot"), Err(Error::EventNotFound));
    assert_eq!(k.state().tasks.len(), 3);
}

#[test]
fn exit_then_sched_keeps_the_exit() {
    let mut k = fifo_kernel(vec![event("quit", vec![EventAction::Exit, EventAction::Sched])]);
    assert_eq!(k.execute("quit"), Err(Error::NoReadyTask));
    assert!(k.state().tasks.is_empty());
    assert_eq!(k.execute("quit"), Err(Error::TaskNotFound));
}

#[test]
fn stop_then_sched_resumes_first_ready() {
    let mut k = fifo_kernel(vec![
        event("fork", vec![EventAction::NewTask]),
        event("yield", vec![EventAction::Stop, EventAction::Sched]),
    ]);
    assert_eq!(k.execute("fork"), Ok(()));
    assert_eq!(k.state().tasks, vec![tcb(0, TaskStatus::Running), tcb(1, TaskStatus::Ready)]);
    assert_eq!(k.execute("yield"), Ok(()));
    // FIFO takes the first ready task in table order: task 0 again.
    assert_eq!(k.state().current_task, 0);
    assert_eq!(k.state().tasks, vec![tcb(0, TaskStatus::Running), tcb(1, TaskStatus::Ready)]);
}

#[test]
fn failing_action_stops_the_event() {
    let mut k = fifo_kernel(vec![event(
        "bad",
        vec![EventAction::NewTask, EventAction::Exit, EventAction::Stop, EventAction::NewTask],
    )]);
    assert_eq!(k.execute("bad"), Err(Error::TaskNotFound));
    // The first task was added and task 0 removed; the last NewTask never ran.
    assert_eq!(k.state().tasks, vec![tcb(1, TaskStatus::Ready)]);
}

#[test]
fn shutdown_sets_code_zero() {
    let mut k = fifo_kernel(vec![event("halt", vec![EventAction::Shutdown])]);
    assert_eq!(k.execute("halt"), Ok(()));
    assert_eq!(k.shutdown_code(), Some(0));
    assert_eq!(k.state().tasks, vec![tcb(0, TaskStatus::Running)]);
}

#[test]
fn task_ids_are_never_reused() {
    let mut k = fifo_kernel(vec![
        event("fork", vec![EventAction::NewTask]),
        event("quit", vec![EventAction::Exit, EventAction::Sched]),
    ]);
    let mut seen = vec![0u32];
    for _ in 0..3 {
        assert_eq!(k.execute("fork"), Ok(()));
        let id = k.state().tasks.last().unwrap().id;
        assert!(!seen.contains(&id));
        seen.push(id);
        assert_eq!(k.execute("quit"), Ok(()));
    }
    assert_eq!(k.execute("fork"), Ok(()));
    let id = k.state().tasks.last().unwrap().id;
    assert!(!seen.contains(&id));
    assert_eq!(id, 4);
}

#[test]
fn fifo_scheduler_contract() {
    let s = Scheduler::new(SchedulerType::Fifo);
    let mut st = AbstractState::new();
    assert_eq!(s.schedule(&st), None);
    st.tasks = vec![tcb(3, TaskStatus::Running), tcb(5, TaskStatus::Running)];
    assert_eq!(s.schedule(&st), None);
    st.tasks = vec![tcb(3, TaskStatus::Running), tcb(7, TaskStatus::Ready), tcb(5, TaskStatus::Ready)];
    assert_eq!(s.schedule(&st), Some(7));
    assert_eq!(s.schedule(&st), Some(7));
    assert_eq!(Scheduler::fifo(&st), Some(7));
    assert_eq!(s.type_(), SchedulerType::Fifo);
}

#[test]
fn random_scheduler_picks_a_ready_task() {
    let s = Scheduler::new(SchedulerType::Random);
    let mut st = AbstractState::new();
    assert_eq!(s.schedule(&st), None);
    st.tasks = vec![tcb(1, TaskStatus::Running), tcb(2, TaskStatus::Ready), tcb(4, TaskStatus::Ready)];
    for _ in 0..50 {
        let id = s.schedule(&st).unwrap();
        assert!(id == 2 || id == 4);
    }
    assert_eq!(pick_ready(&st, 0), 2);
    assert_eq!(pick_ready(&st, 1), 4);
}

#[test]
fn random_kernel_boot() {
    let mut k = Kernel::new(
        vec![event("boot", vec![EventAction::NewTask, EventAction::Stop, EventAction::Sched])],
        Scheduler::new(SchedulerType::Random),
    );
    assert_eq!(k.execute("boot"), Ok(()));
    let cur = k.state().current_task;
    assert!(cur == 0 || cur == 1);
    let running: Vec<u32> = k
        .state()
        .tasks
        .iter()
        .filter(|t| t.status == TaskStatus::Running)
        .map(|t| t.id)
        .collect();
    assert_eq!(running, vec![cur]);
}

#[test]
fn system_calls() {
    let mut k = fifo_kernel(vec![]);
    let fork = Api::sys_fork();
    assert_eq!(fork.name, "sys_fork");
    assert_eq!(fork.execute(&mut k), Ok(()));
    assert_eq!(k.state().tasks, vec![tcb(0, TaskStatus::Running), tcb(1, TaskStatus::Ready)]);
    let exit = Api::sys_exit();
    assert_eq!(exit.name, "sys_exit");
    assert_eq!(exit.execute(&mut k), Ok(()));
    assert_eq!(k.state().tasks, vec![tcb(1, TaskStatus::Running)]);
    assert_eq!(k.state().current_task, 1);
    assert_eq!(exit.execute(&mut k), Err(Error::NoReadyTask));
    assert!(k.state().tasks.is_empty());
}

#[test]
fn event_accessors() {
    let e = event("boot", vec![EventAction::NewTask, EventAction::Sched]);
    assert_eq!(e.name(), "boot");
    assert_eq!(e.actions(), &[EventAction::NewTask, EventAction::Sched][..]);
    assert!(TokenKind::Sched.is_action());
    assert!(TokenKind::Stop.is_action());
    assert!(!TokenKind::Identifier.is_action());
    assert_eq!(EventAction::from(TokenKind::Exit), EventAction::Exit);
}

#[test]
fn kernel_from_loaded_model() {
    let src = "event a { newtask } event b { exit } event c { stop }\nkernel { scheduler = random events = [c, a] }";
    let model = kml_kernel::parse::lex_and_parse_kml(src).unwrap();
    let k = Kernel::from_model(model);
    let names: Vec<&str> = k.events_list().iter().map(|e| e.name()).collect();
    assert_eq!(names, vec!["a", "c"]);
    assert_eq!(k.scheduler().type_(), SchedulerType::Random);
    assert_eq!(k.state().tasks, vec![tcb(0, TaskStatus::Running)]);
    assert!(k.has_ids_for_events());
}

#[test]
fn run_actions_directly() {
    let mut k = fifo_kernel(vec![]);
    assert_eq!(k.run(&[EventAction::NewTask, EventAction::NewTask, EventAction::Stop]), Ok(()));
    assert_eq!(
        k.state().tasks,
        vec![tcb(0, TaskStatus::Ready), tcb(1, TaskStatus::Ready), tcb(2, TaskStatus::Ready)]
    );
    assert_eq!(k.run(&[EventAction::Sched]), Ok(()));
    assert_eq!(k.state().current_task, 0);
    let running = k.state().tasks.iter().filter(|t| t.status == TaskStatus::Running).count();
    assert_eq!(running, 1);
}
