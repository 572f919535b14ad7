use my_library::game_menus::{decide, run, setup};
use my_library::{
    HookRun, MenuAction, MenuGraphic, MenuInput, MenuResource, Phase, PhaseError, PhaseScheduler,
    Stage,
};

const LOADING: Phase = Phase(0);
const MENU: Phase = Phase(1);
const PLAYING: Phase = Phase(2);
const GAME_OVER: Phase = Phase(3);

fn hook(phase: Phase, stage: Stage, hook: u64) -> HookRun {
    HookRun { phase, stage, hook }
}

fn game() -> PhaseScheduler {
    let mut scheduler = PhaseScheduler::new(LOADING);
    scheduler.add_phase(LOADING, vec![1], vec![2], vec![3]);
    scheduler.add_phase(MENU, vec![10], vec![11], vec![12]);
    scheduler.add_phase(PLAYING, vec![20], vec![21, 22, 23], vec![24, 25]);
    scheduler.add_phase(GAME_OVER, vec![30], vec![31], vec![32]);
    scheduler
}

fn table() -> MenuResource {
    MenuResource::new(MENU, PLAYING, GAME_OVER)
}

fn keys(start: bool, quit: bool, back: bool) -> MenuInput {
    MenuInput { start, quit, back }
}

#[test]
fn first_cycle_enters_the_initial_phase_before_its_tick() {
    let mut scheduler = game();
    assert_eq!(scheduler.current(), LOADING);
    assert_eq!(
        scheduler.cycle(),
        vec![hook(LOADING, Stage::Entry, 1), hook(LOADING, Stage::Tick, 2)]
    );
    assert_eq!(scheduler.cycle(), vec![hook(LOADING, Stage::Tick, 2)]);
    assert_eq!(scheduler.current(), LOADING);
}

#[test]
fn transition_runs_exit_then_entry_then_tick() {
    let mut scheduler = game();
    scheduler.cycle();
    assert_eq!(scheduler.request(PLAYING), Ok(()));
    assert_eq!(scheduler.requested(), Some(PLAYING));
    assert_eq!(scheduler.current(), LOADING);
    assert_eq!(
        scheduler.cycle(),
        vec![
            hook(LOADING, Stage::Exit, 3),
            hook(PLAYING, Stage::Entry, 20),
            hook(PLAYING, Stage::Tick, 21),
            hook(PLAYING, Stage::Tick, 22),
            hook(PLAYING, Stage::Tick, 23),
        ]
    );
    assert_eq!(scheduler.current(), PLAYING);
    assert_eq!(scheduler.requested(), None);
}

#[test]
fn exit_hooks_run_once_per_departure() {
    let mut scheduler = game();
    let mut log = Vec::new();
    log.extend(scheduler.cycle());
    for target in [PLAYING, PLAYING, MENU, PLAYING, GAME_OVER, GAME_OVER] {
        scheduler.request(target).unwrap();
        log.extend(scheduler.cycle());
        log.extend(scheduler.cycle());
    }
    let exits = |hook_id: u64| {
        log.iter().filter(|run| run.stage == Stage::Exit && run.hook == hook_id).count()
    };
    assert_eq!(exits(3), 1);
    assert_eq!(exits(24), 2);
    assert_eq!(exits(25), 2);
    assert_eq!(exits(12), 1);
    for (at, run) in log.iter().enumerate() {
        if run.stage == Stage::Exit && run.hook == 25 {
            assert_eq!(log[at + 1].stage, Stage::Entry);
            assert_ne!(log[at + 1].phase, PLAYING);
        }
    }
}

#[test]
fn last_request_of_a_cycle_wins() {
    let mut scheduler = game();
    scheduler.cycle();
    scheduler.request(PLAYING).unwrap();
    scheduler.request(MENU).unwrap();
    assert_eq!(
        scheduler.cycle(),
        vec![
            hook(LOADING, Stage::Exit, 3),
            hook(MENU, Stage::Entry, 10),
            hook(MENU, Stage::Tick, 11),
        ]
    );
}

#[test]
fn repeated_requests_for_one_phase_make_one_transition() {
    let mut scheduler = game();
    scheduler.cycle();
    scheduler.request(MENU).unwrap();
    scheduler.request(MENU).unwrap();
    scheduler.request(MENU).unwrap();
    assert_eq!(scheduler.cycle().len(), 3);
    assert_eq!(scheduler.cycle(), vec![hook(MENU, Stage::Tick, 11)]);
}

#[test]
fn request_for_the_current_phase_is_no_transition() {
    let mut scheduler = game();
    scheduler.cycle();
    scheduler.request(LOADING).unwrap();
    assert_eq!(scheduler.cycle(), vec![hook(LOADING, Stage::Tick, 2)]);
    assert_eq!(scheduler.requested(), None);
}

#[test]
fn request_for_an_unregistered_phase_is_refused() {
    let mut scheduler = game();
    scheduler.request(MENU).unwrap();
    assert_eq!(scheduler.request(Phase(9)), Err(PhaseError::Unregistered(Phase(9))));
    assert_eq!(scheduler.requested(), Some(MENU));
    assert!(!scheduler.is_registered(Phase(9)));
    assert!(scheduler.is_registered(GAME_OVER));
}

#[test]
fn request_before_the_first_cycle_still_enters_the_initial_phase() {
    let mut scheduler = game();
    scheduler.request(MENU).unwrap();
    assert_eq!(
        scheduler.cycle(),
        vec![
            hook(LOADING, Stage::Entry, 1),
            hook(LOADING, Stage::Exit, 3),
            hook(MENU, Stage::Entry, 10),
            hook(MENU, Stage::Tick, 11),
        ]
    );
}

#[test]
fn hooks_registered_twice_keep_registration_order() {
    let mut scheduler = game();
    scheduler.add_phase(PLAYING, vec![26], vec![27], vec![]);
    assert_eq!(scheduler.hooks(PLAYING, Stage::Entry), vec![20, 26]);
    assert_eq!(scheduler.hooks(PLAYING, Stage::Tick), vec![21, 22, 23, 27]);
    assert_eq!(scheduler.hooks(PLAYING, Stage::Exit), vec![24, 25]);
    assert_eq!(scheduler.hooks(Phase(9), Stage::Tick), Vec::<u64>::new());
}

#[test]
fn new_scheduler_knows_only_its_initial_phase() {
    let mut scheduler = PhaseScheduler::new(Phase(4));
    assert_eq!(scheduler.current(), Phase(4));
    assert_eq!(scheduler.requested(), None);
    assert!(scheduler.is_registered(Phase(4)));
    assert!(!scheduler.is_registered(Phase(0)));
    assert_eq!(scheduler.cycle(), Vec::<HookRun>::new());
}

#[test]
fn menu_phase_starts_the_game_or_quits() {
    assert_eq!(decide(MENU, keys(true, false, false), &table()), MenuAction::Transition(PLAYING));
    assert_eq!(decide(MENU, keys(true, true, true), &table()), MenuAction::Transition(PLAYING));
    assert_eq!(decide(MENU, keys(false, true, false), &table()), MenuAction::Quit);
    assert_eq!(decide(MENU, keys(false, false, true), &table()), MenuAction::Stay);
    assert_eq!(decide(MENU, keys(false, false, false), &table()), MenuAction::Stay);
}

#[test]
fn game_over_phase_returns_to_the_menu_or_quits() {
    assert_eq!(decide(GAME_OVER, keys(false, false, true), &table()), MenuAction::Transition(MENU));
    assert_eq!(decide(GAME_OVER, keys(true, true, true), &table()), MenuAction::Transition(MENU));
    assert_eq!(decide(GAME_OVER, keys(false, true, false), &table()), MenuAction::Quit);
    assert_eq!(decide(GAME_OVER, keys(true, false, false), &table()), MenuAction::Stay);
}

#[test]
fn other_phases_ignore_menu_commands() {
    assert_eq!(decide(PLAYING, keys(true, true, true), &table()), MenuAction::Stay);
    assert_eq!(decide(LOADING, keys(true, true, true), &table()), MenuAction::Stay);
}

#[test]
fn menu_run_hands_the_transition_to_the_scheduler() {
    let mut scheduler = game();
    scheduler.request(MENU).unwrap();
    scheduler.cycle();
    assert_eq!(run(keys(false, true, false), &mut scheduler, &table()), Ok(MenuAction::Quit));
    assert_eq!(scheduler.requested(), None);
    assert_eq!(
        run(keys(true, false, false), &mut scheduler, &table()),
        Ok(MenuAction::Transition(PLAYING))
    );
    assert_eq!(scheduler.requested(), Some(PLAYING));
    scheduler.cycle();
    assert_eq!(scheduler.current(), PLAYING);
    assert_eq!(run(keys(true, true, true), &mut scheduler, &table()), Ok(MenuAction::Stay));
    assert_eq!(scheduler.requested(), None);
}

#[test]
fn menu_run_reports_an_unregistered_target() {
    let mut scheduler = PhaseScheduler::new(MENU);
    assert_eq!(
        run(keys(true, false, false), &mut scheduler, &table()),
        Err(PhaseError::Unregistered(PLAYING))
    );
    assert_eq!(scheduler.requested(), None);
}

#[test]
fn menu_setup_picks_the_picture_of_the_phase() {
    assert_eq!(setup(MENU, &table()), Some(MenuGraphic::MainMenu));
    assert_eq!(setup(GAME_OVER, &table()), Some(MenuGraphic::GameOver));
    assert_eq!(setup(PLAYING, &table()), None);
    assert_eq!(MenuGraphic::MainMenu.tag(), "main_menu");
    assert_eq!(MenuGraphic::GameOver.tag(), "game_over");
}
