use live_expectancy::chain::{
    after_fetch, after_load, after_probe, after_save, first_step, has_cache, is_final_step,
    next_step, Event, Step,
};

type Table = Vec<(String, u32)>;
type Run = Step<Table, String>;

struct Answers {
    stat: Option<bool>,
    cache: Result<Table, String>,
    remote: Result<Table, String>,
    saved: Result<(), String>,
    default: Result<Table, String>,
}

fn table(name: &str) -> Table {
    vec![(name.to_string(), 1), ("Common".to_string(), 2)]
}

fn answers() -> Answers {
    Answers {
        stat: Some(true),
        cache: Ok(table("cache")),
        remote: Ok(table("remote")),
        saved: Ok(()),
        default: Ok(table("default")),
    }
}

fn run(answers: &Answers) -> Vec<Run> {
    let mut steps: Vec<Run> = vec![first_step()];
    loop {
        let step = steps.last().unwrap().clone();
        let next = match step {
            Step::ProbeCache => after_probe(answers.stat),
            Step::LoadCache => after_load(answers.cache.clone()),
            Step::FetchRemote => after_fetch(answers.remote.clone()),
            Step::SaveCache(t) => after_save(t, answers.saved.clone()),
            Step::LoadDefault => after_load(answers.default.clone()),
            Step::Return(_) | Step::Fail(_) => return steps,
        };
        steps.push(next);
    }
}

#[test]
fn chain_starts_by_probing_the_cache() {
    let step: Run = first_step();
    assert_eq!(step, Step::ProbeCache);
    assert!(!is_final_step(&step));
}

#[test]
fn only_a_regular_file_counts_as_cache() {
    assert!(has_cache(Some(true)));
    assert!(!has_cache(Some(false)));
    assert!(!has_cache(None));
    assert_eq!(after_probe::<Table, String>(Some(true)), Step::LoadCache);
    assert_eq!(after_probe::<Table, String>(Some(false)), Step::FetchRemote);
    assert_eq!(after_probe::<Table, String>(None), Step::FetchRemote);
}

#[test]
fn present_cache_is_returned_without_fetching() {
    for remote in [Ok(table("remote")), Err("offline".to_string())] {
        let a = Answers { remote, ..answers() };
        assert_eq!(
            run(&a),
            vec![Step::ProbeCache, Step::LoadCache, Step::Return(table("cache"))]
        );
    }
}

#[test]
fn unreadable_cache_is_an_error() {
    let a = Answers { cache: Err("bad json".to_string()), ..answers() };
    assert_eq!(
        run(&a),
        vec![Step::ProbeCache, Step::LoadCache, Step::Fail("bad json".to_string())]
    );
}

#[test]
fn fresh_table_is_saved_then_returned() {
    for stat in [None, Some(false)] {
        let a = Answers { stat, ..answers() };
        assert_eq!(
            run(&a),
            vec![
                Step::ProbeCache,
                Step::FetchRemote,
                Step::SaveCache(table("remote")),
                Step::Return(table("remote"))
            ]
        );
    }
}

#[test]
fn failed_save_is_an_error() {
    let a = Answers { stat: None, saved: Err("read-only".to_string()), ..answers() };
    assert_eq!(
        run(&a),
        vec![
            Step::ProbeCache,
            Step::FetchRemote,
            Step::SaveCache(table("remote")),
            Step::Fail("read-only".to_string())
        ]
    );
}

#[test]
fn no_cache_and_failed_fetch_give_the_default_data() {
    let a = Answers { stat: Some(false), remote: Err("offline".to_string()), ..answers() };
    assert_eq!(
        run(&a),
        vec![
            Step::ProbeCache,
            Step::FetchRemote,
            Step::LoadDefault,
            Step::Return(table("default"))
        ]
    );
}

#[test]
fn unreadable_default_data_is_an_error() {
    let a = Answers {
        stat: None,
        remote: Err("offline".to_string()),
        default: Err("missing".to_string()),
        ..answers()
    };
    assert_eq!(
        run(&a),
        vec![
            Step::ProbeCache,
            Step::FetchRemote,
            Step::LoadDefault,
            Step::Fail("missing".to_string())
        ]
    );
}

#[test]
fn every_run_ends_within_three_steps() {
    for bits in 0u8..32 {
        let pick = |ok: bool, name: &str| if ok { Ok(table(name)) } else { Err(name.to_string()) };
        let a = Answers {
            stat: if bits & 1 != 0 { Some(true) } else { None },
            cache: pick(bits & 2 != 0, "cache"),
            remote: pick(bits & 4 != 0, "remote"),
            saved: if bits & 8 != 0 { Ok(()) } else { Err("save".to_string()) },
            default: pick(bits & 16 != 0, "default"),
        };
        let steps = run(&a);
        assert!(steps.len() <= 4);
        assert!(is_final_step(steps.last().unwrap()));
    }
}

#[test]
fn final_steps_are_told_apart() {
    assert!(is_final_step(&Run::Return(table("x"))));
    assert!(is_final_step(&Run::Fail("x".to_string())));
    assert!(!is_final_step(&Run::LoadCache));
    assert!(!is_final_step(&Run::FetchRemote));
    assert!(!is_final_step(&Run::SaveCache(table("x"))));
    assert!(!is_final_step(&Run::LoadDefault));
}

fn drive(answers: &Answers) -> Vec<Run> {
    let mut steps: Vec<Run> = vec![first_step()];
    loop {
        let step = steps.last().unwrap().clone();
        let event = match &step {
            Step::ProbeCache => Event::CacheProbed(answers.stat),
            Step::LoadCache => Event::CacheLoaded(answers.cache.clone()),
            Step::FetchRemote => Event::Fetched(answers.remote.clone()),
            Step::SaveCache(_) => Event::CacheSaved(answers.saved.clone()),
            Step::LoadDefault => Event::DefaultLoaded(answers.default.clone()),
            Step::Return(_) | Step::Fail(_) => return steps,
        };
        steps.push(next_step(step, event));
    }
}

#[test]
fn next_step_follows_the_chain() {
    for bits in 0u8..32 {
        let pick = |ok: bool, name: &str| if ok { Ok(table(name)) } else { Err(name.to_string()) };
        let a = Answers {
            stat: if bits & 1 != 0 { Some(true) } else { Some(false) },
            cache: pick(bits & 2 != 0, "cache"),
            remote: pick(bits & 4 != 0, "remote"),
            saved: if bits & 8 != 0 { Ok(()) } else { Err("save".to_string()) },
            default: pick(bits & 16 != 0, "default"),
        };
        assert_eq!(drive(&a), run(&a));
    }
}

#[test]
fn next_step_gives_the_default_data_after_a_failed_fetch() {
    let a = Answers { stat: None, remote: Err("offline".to_string()), ..answers() };
    assert_eq!(
        drive(&a),
        vec![
            Step::ProbeCache,
            Step::FetchRemote,
            Step::LoadDefault,
            Step::Return(table("default"))
        ]
    );
}

#[test]
fn next_step_saves_the_table_it_was_given() {
    let next: Run = next_step(Step::FetchRemote, Event::Fetched(Ok(table("fresh"))));
    assert_eq!(next, Step::SaveCache(table("fresh")));
    assert_eq!(next_step(next, Event::CacheSaved(Ok(()))), Step::Return(table("fresh")));
    let failed: Run = next_step(
        Step::SaveCache(table("fresh")),
        Event::CacheSaved(Err("full".to_string())),
    );
    assert_eq!(failed, Step::Fail("full".to_string()));
}

#[test]
fn event_that_does_not_answer_the_step_changes_nothing() {
    let step: Run = next_step(Step::ProbeCache, Event::Fetched(Ok(table("x"))));
    assert_eq!(step, Step::ProbeCache);
    let step: Run = next_step(Step::LoadCache, Event::DefaultLoaded(Ok(table("x"))));
    assert_eq!(step, Step::LoadCache);
    let step: Run = next_step(Step::FetchRemote, Event::CacheLoaded(Ok(table("x"))));
    assert_eq!(step, Step::FetchRemote);
    let step: Run = next_step(Step::SaveCache(table("y")), Event::CacheProbed(Some(true)));
    assert_eq!(step, Step::SaveCache(table("y")));
    let step: Run = next_step(Step::LoadDefault, Event::CacheSaved(Ok(())));
    assert_eq!(step, Step::LoadDefault);
}

#[test]
fn final_steps_stay() {
    let done: Run = next_step(Step::Return(table("x")), Event::CacheProbed(None));
    assert_eq!(done, Step::Return(table("x")));
    let failed: Run = next_step(Step::Fail("e".to_string()), Event::Fetched(Ok(table("x"))));
    assert_eq!(failed, Step::Fail("e".to_string()));
}
