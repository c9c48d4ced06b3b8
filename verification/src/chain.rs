//! The ordered chain of sources: the cache, the remote page, the bundled
//! default data.
//!
//! The caller does the work (it looks for the cache file, reads, fetches and
//! writes) and hands in what each step gave. This module decides what comes
//! next, which table is returned and which error is reported. It looks at
//! neither: `T` is the caller's table, `E` its error. A table from the remote
//! page is the list of rows turned into numbers, with the average entry added.

use vstd::prelude::*;

verus! {

/// What the caller does next, or how the chain ended.
#[derive(Debug, Clone, PartialEq, Eq)]
pub enum Step<T, E> {
    /// Look whether the cache file exists and is a regular file.
    ProbeCache,
    /// Read the cache file as a table.
    LoadCache,
    /// Fetch the page, read its rows as numbers and add the average entry.
    FetchRemote,
    /// Write this table, fresh from the page, to the cache file.
    SaveCache(T),
    /// Read the default data as a table.
    LoadDefault,
    /// Hand this table to the caller.
    Return(T),
    /// Report this error to the caller.
    Fail(E),
}

/// What the caller found when it took a step.
#[derive(Debug, PartialEq, Eq)]
pub enum Event<T, E> {
    /// Looking at the cache path gave `Some(is_file)`, or `None` when it
    /// could not be examined.
    CacheProbed(Option<bool>),
    /// Reading the cache file gave this.
    CacheLoaded(Result<T, E>),
    /// Fetching and reading the page gave this.
    Fetched(Result<T, E>),
    /// Writing the cache file gave this.
    CacheSaved(Result<(), E>),
    /// Reading the default data gave this.
    DefaultLoaded(Result<T, E>),
}

/// What each step of a run would give, were it taken.
pub ghost struct Answers<T, E> {
    /// Looking at the cache path: `Some(is_file)`, or `None` when it could
    /// not be examined.
    pub stat: Option<bool>,
    pub cache: Result<T, E>,
    pub remote: Result<T, E>,
    pub saved: Result<(), E>,
    pub default: Result<T, E>,
}

/// The chain has ended at this step.
pub open spec fn is_final<T, E>(step: Step<T, E>) -> bool {
    step is Return || step is Fail
}

/// Only an existing regular file counts as a cache.
pub open spec fn cache_counts(stat: Option<bool>) -> bool {
    stat == Some(true)
}

/// After looking for the cache: read it if it counts, fetch otherwise.
pub open spec fn probed<T, E>(stat: Option<bool>) -> Step<T, E> {
    if cache_counts(stat) {
        Step::LoadCache
    } else {
        Step::FetchRemote
    }
}

/// After a load, of the cache or of the default data: its table is returned,
/// its error reported. Nothing is tried after either.
pub open spec fn loaded<T, E>(table: Result<T, E>) -> Step<T, E> {
    match table {
        Ok(t) => Step::Return(t),
        Err(e) => Step::Fail(e),
    }
}

/// After the fetch: a fresh table is saved next. A failure is not reported,
/// whatever it was: the default data takes the table's place.
pub open spec fn fetched<T, E>(table: Result<T, E>) -> Step<T, E> {
    match table {
        Ok(t) => Step::SaveCache(t),
        Err(_) => Step::LoadDefault,
    }
}

/// After saving `table`: it is returned, or the error of saving it is
/// reported in its place.
pub open spec fn saved<T, E>(table: T, written: Result<(), E>) -> Step<T, E> {
    match written {
        Ok(_) => Step::Return(table),
        Err(e) => Step::Fail(e),
    }
}

/// The step that follows `step` under `answers`. A final step stays.
pub open spec fn step_after<T, E>(step: Step<T, E>, answers: Answers<T, E>) -> Step<T, E> {
    match step {
        Step::ProbeCache => probed(answers.stat),
        Step::LoadCache => loaded(answers.cache),
        Step::FetchRemote => fetched(answers.remote),
        Step::SaveCache(table) => saved(table, answers.saved),
        Step::LoadDefault => loaded(answers.default),
        Step::Return(table) => Step::Return(table),
        Step::Fail(error) => Step::Fail(error),
    }
}

/// The step that follows `step` once `event` is handed in. An event that
/// does not answer the step leaves it as it is, and so does any event at a
/// final step.
pub open spec fn step_on<T, E>(step: Step<T, E>, event: Event<T, E>) -> Step<T, E> {
    match (step, event) {
        (Step::ProbeCache, Event::CacheProbed(stat)) => probed(stat),
        (Step::LoadCache, Event::CacheLoaded(table)) => loaded(table),
        (Step::FetchRemote, Event::Fetched(table)) => fetched(table),
        (Step::SaveCache(table), Event::CacheSaved(written)) => saved(table, written),
        (Step::LoadDefault, Event::DefaultLoaded(table)) => loaded(table),
        _ => step,
    }
}

/// `event` answers `step`, and `answers` holds what it reports. At a final
/// step there is nothing to answer and every event agrees.
pub open spec fn agrees<T, E>(step: Step<T, E>, event: Event<T, E>, answers: Answers<T, E>) -> bool {
    match (step, event) {
        (Step::ProbeCache, Event::CacheProbed(stat)) => answers.stat == stat,
        (Step::LoadCache, Event::CacheLoaded(table)) => answers.cache == table,
        (Step::FetchRemote, Event::Fetched(table)) => answers.remote == table,
        (Step::SaveCache(_), Event::CacheSaved(written)) => answers.saved == written,
        (Step::LoadDefault, Event::DefaultLoaded(table)) => answers.default == table,
        (Step::Return(_), _) => true,
        (Step::Fail(_), _) => true,
        _ => false,
    }
}

/// The step reached from `step` after `n` further steps under `answers`.
pub open spec fn run<T, E>(step: Step<T, E>, answers: Answers<T, E>, n: nat) -> Step<T, E>
    decreases n,
{
    if n == 0 {
        step
    } else {
        run(step_after(step, answers), answers, (n - 1) as nat)
    }
}

/// Where a whole run ends under `answers`.
pub open spec fn end_of_run<T, E>(answers: Answers<T, E>) -> Step<T, E> {
    if cache_counts(answers.stat) {
        loaded(answers.cache)
    } else {
        match answers.remote {
            Ok(table) => saved(table, answers.saved),
            Err(_) => loaded(answers.default),
        }
    }
}

/// Whether the cache counts as present, given what looking at its path gave:
/// `Some(is_file)`, or `None` when the path could not be examined.
pub fn has_cache(stat: Option<bool>) -> (present: bool)
    ensures
        present == cache_counts(stat),
{
    match stat {
        Some(is_file) => is_file,
        None => false,
    }
}

/// The step a run starts with.
pub fn first_step<T, E>() -> (step: Step<T, E>)
    ensures
        step == Step::<T, E>::ProbeCache,
{
    Step::ProbeCache
}

/// Whether the chain has ended at `step`.
pub fn is_final_step<T, E>(step: &Step<T, E>) -> (b: bool)
    ensures
        b == is_final(*step),
{
    match step {
        Step::Return(_) => true,
        Step::Fail(_) => true,
        _ => false,
    }
}

/// The step after [`Step::ProbeCache`], given what looking at the cache path gave.
pub fn after_probe<T, E>(stat: Option<bool>) -> (next: Step<T, E>)
    ensures
        next == probed::<T, E>(stat),
{
    if has_cache(stat) {
        Step::LoadCache
    } else {
        Step::FetchRemote
    }
}

/// The step after [`Step::LoadCache`] or [`Step::LoadDefault`], given what
/// the load gave.
pub fn after_load<T, E>(table: Result<T, E>) -> (next: Step<T, E>)
    ensures
        next == loaded(table),
{
    match table {
        Ok(t) => Step::Return(t),
        Err(e) => Step::Fail(e),
    }
}

/// The step after [`Step::FetchRemote`], given what the fetch gave.
pub fn after_fetch<T, E>(table: Result<T, E>) -> (next: Step<T, E>)
    ensures
        next == fetched(table),
{
    match table {
        Ok(t) => Step::SaveCache(t),
        Err(_) => Step::LoadDefault,
    }
}

/// The step after [`Step::SaveCache`], given the table and what writing it gave.
pub fn after_save<T, E>(table: T, written: Result<(), E>) -> (next: Step<T, E>)
    ensures
        next == saved(table, written),
{
    match written {
        Ok(_) => Step::Return(table),
        Err(e) => Step::Fail(e),
    }
}

/// The step that follows `step` once the caller hands in what it found.
///
/// The result is the step of the run model for every set of answers that
/// holds what the event reports.
pub fn next_step<T, E>(step: Step<T, E>, event: Event<T, E>) -> (next: Step<T, E>)
    ensures
        next == step_on(step, event),
        forall|answers: Answers<T, E>| #[trigger]
            agrees(step, event, answers) ==> next == step_after(step, answers),
{
    match step {
        Step::ProbeCache => match event {
            Event::CacheProbed(stat) => after_probe(stat),
            _ => Step::ProbeCache,
        },
        Step::LoadCache => match event {
            Event::CacheLoaded(table) => after_load(table),
            _ => Step::LoadCache,
        },
        Step::FetchRemote => match event {
            Event::Fetched(table) => after_fetch(table),
            _ => Step::FetchRemote,
        },
        Step::SaveCache(table) => match event {
            Event::CacheSaved(written) => after_save(table, written),
            _ => Step::SaveCache(table),
        },
        Step::LoadDefault => match event {
            Event::DefaultLoaded(table) => after_load(table),
            _ => Step::LoadDefault,
        },
        Step::Return(table) => Step::Return(table),
        Step::Fail(error) => Step::Fail(error),
    }
}

/// A final step is not left.
pub proof fn lemma_final_step_stays<T, E>(step: Step<T, E>, answers: Answers<T, E>, n: nat)
    requires
        is_final(step),
    ensures
        run(step, answers, n) == step,
    decreases n,
{
    if n > 0 {
        lemma_final_step_stays(step, answers, (n - 1) as nat);
    }
}

/// A run of `a + b` steps is a run of `a` steps followed by one of `b`.
pub proof fn lemma_run_splits<T, E>(step: Step<T, E>, answers: Answers<T, E>, a: nat, b: nat)
    ensures
        run(step, answers, a + b) == run(run(step, answers, a), answers, b),
    decreases a,
{
    if a > 0 {
        lemma_run_splits(step_after(step, answers), answers, (a - 1) as nat, b);
    }
}

/// Every run ends within three steps, at the step that [`end_of_run`] gives,
/// and stays there.
pub proof fn lemma_run_ends<T, E>(answers: Answers<T, E>, n: nat)
    requires
        n >= 3,
    ensures
        run(Step::ProbeCache, answers, n) == end_of_run(answers),
        is_final(end_of_run(answers)),
{
    reveal_with_fuel(run, 4);
    let end = run(Step::<T, E>::ProbeCache, answers, 3);
    assert(end == end_of_run(answers));
    lemma_final_step_stays(end, answers, (n - 3) as nat);
    lemma_run_splits(Step::<T, E>::ProbeCache, answers, 3, (n - 3) as nat);
}

/// With no cache file and a failing fetch, the run returns the default data
/// as it was loaded, or reports the error of loading it. The error of the
/// fetch is dropped, the remote page is not tried again, and nothing is
/// written to the cache.
pub proof fn lemma_failed_fetch_gives_default<T, E>(answers: Answers<T, E>)
    requires
        !cache_counts(answers.stat),
        answers.remote is Err,
    ensures
        end_of_run(answers) == loaded(answers.default),
        answers.default matches Ok(table) ==> end_of_run(answers) == Step::<T, E>::Return(table),
        forall|n: nat| !(#[trigger] run(Step::ProbeCache, answers, n) is SaveCache),
        forall|n: nat| !(#[trigger] run(Step::ProbeCache, answers, n) is LoadCache),
{
    reveal_with_fuel(run, 4);
    assert forall|n: nat| {
        let step = #[trigger] run(Step::ProbeCache, answers, n);
        !(step is SaveCache) && !(step is LoadCache)
    } by {
        if n >= 3 {
            lemma_run_ends(answers, n);
        }
    }
}

/// A cache file that is present is the only source: its table is returned as
/// it was loaded, a cache that cannot be read is an error, and the run
/// neither fetches nor reads the default data nor writes the cache.
pub proof fn lemma_cache_comes_first<T, E>(answers: Answers<T, E>)
    requires
        cache_counts(answers.stat),
    ensures
        end_of_run(answers) == loaded(answers.cache),
        forall|n: nat|
            {
                let step = #[trigger] run(Step::ProbeCache, answers, n);
                !(step is FetchRemote) && !(step is LoadDefault) && !(step is SaveCache)
            },
{
    reveal_with_fuel(run, 4);
    assert forall|n: nat|
        {
            let step = #[trigger] run(Step::ProbeCache, answers, n);
            !(step is FetchRemote) && !(step is LoadDefault) && !(step is SaveCache)
        } by {
        if n >= 3 {
            lemma_run_ends(answers, n);
        }
    }
}

/// A table fresh from the page is written to the cache before it is
/// returned, and it is returned as it was fetched. When writing fails, the
/// error of writing is reported and the table is not returned.
pub proof fn lemma_fresh_table_is_saved<T, E>(answers: Answers<T, E>)
    requires
        !cache_counts(answers.stat),
        answers.remote is Ok,
    ensures
        run(Step::ProbeCache, answers, 2) == Step::<T, E>::SaveCache(answers.remote->Ok_0),
        answers.saved is Ok ==> end_of_run(answers) == Step::<T, E>::Return(answers.remote->Ok_0),
        answers.saved matches Err(e) ==> end_of_run(answers) == Step::<T, E>::Fail(e),
{
    reveal_with_fuel(run, 4);
}

} // verus!
