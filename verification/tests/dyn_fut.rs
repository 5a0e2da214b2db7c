use core::task::{Context, Waker};
use pasts::{DynFut, DynFuture, Select, Step, Task};

struct After {
    left: u8,
    value: &'static str,
}

impl Task<&'static str> for After {
    fn step(&mut self, _cx: &mut Context<'_>) -> Step<&'static str> {
        if self.left == 0 {
            Step::Ready(self.value)
        } else {
            self.left -= 1;
            Step::Pending
        }
    }
}

struct Now(&'static str);

impl Task<&'static str> for Now {
    fn step(&mut self, _cx: &mut Context<'_>) -> Step<&'static str> {
        Step::Ready(self.0)
    }
}

#[test]
fn hello_before_world() {
    let mut cx = Context::from_waker(Waker::noop());
    let mut hello = Now("Hello");
    let mut world = After { left: 1, value: "World!" };
    let mut tasks = [hello.dyn_fut(), world.dyn_fut()];
    assert_eq!(tasks.select().poll(&mut cx), Step::Ready((0, "Hello")));
}

#[test]
fn handle_steps_the_task_behind_it() {
    let mut cx = Context::from_waker(Waker::noop());
    let mut task = After { left: 2, value: "done" };
    {
        let mut handle: DynFuture<'_, &'static str> = task.dyn_fut();
        assert_eq!(handle.step(&mut cx), Step::Pending);
    }
    assert_eq!(task.left, 1);
    {
        let mut handle = task.dyn_fut();
        assert_eq!(handle.step(&mut cx), Step::Pending);
        assert_eq!(handle.step(&mut cx), Step::Ready("done"));
    }
    assert_eq!(task.left, 0);
}

#[test]
fn handles_of_different_tasks_fill_one_collection() {
    let mut cx = Context::from_waker(Waker::noop());
    let mut slow = After { left: 2, value: "slow" };
    let mut quick = After { left: 1, value: "quick" };
    let mut now = Now("now");
    {
        let mut tasks = [Some(slow.dyn_fut()), Some(quick.dyn_fut()), Some(now.dyn_fut())];
        assert_eq!(tasks.select().poll(&mut cx), Step::Ready((2, "now")));
        assert_eq!(tasks.select().poll(&mut cx), Step::Ready((1, "quick")));
        assert_eq!(tasks.select().poll(&mut cx), Step::Ready((0, "slow")));
        assert_eq!(tasks.select().poll(&mut cx), Step::Pending);
        assert!(tasks.iter().all(|slot| slot.is_none()));
    }
    assert_eq!(slow.left, 0);
    assert_eq!(quick.left, 0);
}

#[test]
fn handle_of_a_handle_still_reaches_the_task() {
    let mut cx = Context::from_waker(Waker::noop());
    let mut task = After { left: 1, value: "deep" };
    {
        let mut inner = task.dyn_fut();
        let mut outer = inner.dyn_fut();
        assert_eq!(outer.step(&mut cx), Step::Pending);
        assert_eq!(outer.step(&mut cx), Step::Ready("deep"));
    }
    assert_eq!(task.left, 0);
}
