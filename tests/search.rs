use xirr::search::{Action, Search, ATTEMPTS, DEFAULT_GUESS, MAX_STEPS};

#[test]
fn starts_from_default_guess() {
    let (search, action) = Search::start();
    assert_eq!(search, Search { attempt: 0, steps: 0 });
    assert_eq!(action, Action::StepFrom(10));
    assert_eq!(DEFAULT_GUESS, 10);
}

#[test]
fn converged_finite_step_is_accepted() {
    let (mut search, _) = Search::start();
    assert_eq!(search.after_step(false, true), Action::Step);
    assert_eq!(search.after_step(true, true), Action::Accept);
}

#[test]
fn converged_infinite_step_moves_to_sweep() {
    let (mut search, _) = Search::start();
    assert_eq!(search.after_step(true, false), Action::StepFrom(-99));
    assert_eq!(search, Search { attempt: 1, steps: 0 });
}

#[test]
fn last_step_of_budget_is_accepted() {
    let (mut search, _) = Search::start();
    for _ in 0..MAX_STEPS - 1 {
        assert_eq!(search.after_step(false, true), Action::Step);
    }
    assert_eq!(search.after_step(true, true), Action::Accept);
}

#[test]
fn spent_budget_moves_to_next_guess() {
    let (mut search, _) = Search::start();
    for _ in 0..MAX_STEPS - 1 {
        assert_eq!(search.after_step(false, true), Action::Step);
    }
    assert_eq!(search.after_step(false, true), Action::StepFrom(-99));
    assert_eq!(search, Search { attempt: 1, steps: 0 });
}

#[test]
fn last_guess_gives_up() {
    let mut search = Search { attempt: ATTEMPTS - 1, steps: MAX_STEPS - 1 };
    assert_eq!(search.after_step(false, true), Action::GiveUp);
    let mut search = Search { attempt: ATTEMPTS - 1, steps: 3 };
    assert_eq!(search.after_step(true, false), Action::GiveUp);
}

#[test]
fn step_before_budget_converges() {
    let (mut search, _) = Search::start();
    for _ in 0..MAX_STEPS - 2 {
        assert_eq!(search.after_step(false, true), Action::Step);
    }
    assert_eq!(search.after_step(true, true), Action::Accept);
}

#[test]
fn sweep_guesses_in_order_then_give_up() {
    let (mut search, _) = Search::start();
    let mut guesses: Vec<i32> = Vec::new();
    let mut steps: u32 = 0;
    loop {
        let action = search.after_step(false, true);
        steps += 1;
        match action {
            Action::StepFrom(h) => guesses.push(h),
            Action::Step => {}
            Action::Accept => panic!("no step converged"),
            Action::GiveUp => break,
        }
    }
    assert_eq!(steps, ATTEMPTS * MAX_STEPS);
    let expected: Vec<i32> = (-99..=99).collect();
    assert_eq!(guesses, expected);
}
