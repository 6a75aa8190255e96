use cpu_top::controller::LoopController;
use cpu_top::controller::Step;

#[test]
fn steps_cycle_in_order() {
    let mut controller = LoopController::new();
    let mut steps = Vec::new();
    for _ in 0..7 {
        steps.push(controller.next_step());
    }
    assert_eq!(
        steps,
        vec![
            Step::Wait,
            Step::Sample,
            Step::Render,
            Step::Wait,
            Step::Sample,
            Step::Render,
            Step::Wait
        ]
    );
}

#[test]
fn stop_before_the_first_cycle() {
    let mut controller = LoopController::new();
    controller.request_stop();
    assert_eq!(controller.next_step(), Step::Stop);
    assert_eq!(controller.next_step(), Step::Stop);
}

#[test]
fn stop_waits_for_the_end_of_the_cycle() {
    let mut controller = LoopController::new();
    assert_eq!(controller.next_step(), Step::Wait);
    controller.request_stop();
    assert_eq!(controller.next_step(), Step::Sample);
    assert_eq!(controller.next_step(), Step::Render);
    assert_eq!(controller.next_step(), Step::Stop);
    assert_eq!(controller.next_step(), Step::Stop);

    let mut controller = LoopController::new();
    assert_eq!(controller.next_step(), Step::Wait);
    assert_eq!(controller.next_step(), Step::Sample);
    controller.request_stop();
    assert_eq!(controller.next_step(), Step::Render);
    assert_eq!(controller.next_step(), Step::Stop);
}

#[test]
fn stop_is_final() {
    let mut controller = LoopController::new();
    for _ in 0..3 {
        controller.next_step();
    }
    controller.request_stop();
    for _ in 0..10 {
        assert_eq!(controller.next_step(), Step::Stop);
    }
    assert!(controller.stopping);
    let mut odd = LoopController { due: Step::Stop, stopping: false };
    assert_eq!(odd.next_step(), Step::Stop);
    assert_eq!(odd.next_step(), Step::Stop);
}

#[test]
fn request_keeps_the_step_that_is_due() {
    let mut controller = LoopController::new();
    controller.next_step();
    controller.request_stop();
    assert_eq!(controller, LoopController { due: Step::Sample, stopping: true });
}
