//! Steps: their lifecycle, their directory names, and how they are found.
use vstd::prelude::*;
use crate::error::Error;
use crate::text::{decimal, digit_char, owned, pad3, push_char, push_pad3, push_str, starts_with};
use crate::{iso_stamp, StepConfig, StepStatus, step_status_name, timestamp_iso};

verus! {

// ---------------------------------------------------------------------------
// Lifecycle
// ---------------------------------------------------------------------------
/// The moves a step may make: a pending step is begun or blocked, a step in
/// progress is completed or blocked, a blocked step is resumed. A completed
/// step stays completed.
pub open spec fn transition_allowed(from: StepStatus, to: StepStatus) -> bool {
    match (from, to) {
        (StepStatus::Pending, StepStatus::InProgress) => true,
        (StepStatus::Pending, StepStatus::Blocked) => true,
        (StepStatus::InProgress, StepStatus::Completed) => true,
        (StepStatus::InProgress, StepStatus::Blocked) => true,
        (StepStatus::Blocked, StepStatus::InProgress) => true,
        _ => false,
    }
}

/// The step after a successful move to `to`: the status changes, and a move to
/// `Completed` records when (`completed_at` is set to a local time as
/// `YYYY-MM-DDTHH:MM:SS`); nothing else changes.
pub open spec fn moved(old: StepConfig, new: StepConfig, to: StepStatus) -> bool {
    &&& new.status == to
    &&& new.number == old.number
    &&& new.slug == old.slug
    &&& new.description == old.description
    &&& new.context_files == old.context_files
    &&& new.created_at == old.created_at
    &&& new.transcript_file == old.transcript_file
    &&& if to == StepStatus::Completed {
        new.completed_at matches Some(t) && iso_stamp(t@)
    } else {
        new.completed_at == old.completed_at
    }
}

/// Whether an error is the refusal of the move from `from` to `to`.
pub open spec fn is_refusal(e: Error, from: StepStatus, to: StepStatus) -> bool {
    e matches Error::InvalidStepTransition { from: f, to: t } && f@ == step_status_name(from)
        && t@ == step_status_name(to)
}

/// Moves a step to status `to`. A move that the lifecycle does not allow is
/// refused with `InvalidStepTransition` and leaves the step as it was.
pub fn transition_step(config: &mut StepConfig, to: StepStatus) -> (res: Result<(), Error>)
    ensures
        res is Ok <==> transition_allowed(old(config).status, to),
        res is Ok ==> moved(*old(config), *final(config), to),
        res matches Err(e) ==> *final(config) == *old(config) && is_refusal(
            e,
            old(config).status,
            to,
        ),
{
    let from = config.status;
    let allowed = match (from, to) {
        (StepStatus::Pending, StepStatus::InProgress) => true,
        (StepStatus::Pending, StepStatus::Blocked) => true,
        (StepStatus::InProgress, StepStatus::Completed) => true,
        (StepStatus::InProgress, StepStatus::Blocked) => true,
        (StepStatus::Blocked, StepStatus::InProgress) => true,
        _ => false,
    };
    if !allowed {
        return Err(
            Error::InvalidStepTransition { from: owned(from.as_str()), to: owned(to.as_str()) },
        );
    }
    config.status = to;
    if to == StepStatus::Completed {
        config.completed_at = Some(timestamp_iso());
    }
    Ok(())
}

/// Once completed, a step is refused every further move.
pub proof fn completed_is_final(to: StepStatus)
    ensures
        !transition_allowed(StepStatus::Completed, to),
{
}

/// Only a step in progress can be completed: the lifecycle never skips from
/// pending (or blocked) straight to completed.
pub proof fn completion_needs_progress(from: StepStatus)
    ensures
        transition_allowed(from, StepStatus::Completed) <==> from == StepStatus::InProgress,
{
}

// ---------------------------------------------------------------------------
// Directory names
// ---------------------------------------------------------------------------
/// The start of the directory name of step `n`: its number padded to three
/// digits, and a dash.
pub open spec fn step_prefix(n: nat) -> Seq<char> {
    pad3(n).push('-')
}

/// The directory name of step `n` with slug `slug` (`{:03}-{slug}`).
pub open spec fn step_dir_name_of(n: nat, slug: Seq<char>) -> Seq<char> {
    step_prefix(n) + slug
}

/// The directory name of a step (`{:03}-{slug}`, e.g. `002-second`).
pub fn step_dir_name(number: u32, slug: &str) -> (res: String)
    ensures
        res@ == step_dir_name_of(number as nat, slug@),
{
    let mut res = String::new();
    push_pad3(&mut res, number as u64);
    push_char(&mut res, '-');
    push_str(&mut res, slug);
    assert(res@ =~= step_dir_name_of(number as nat, slug@));
    res
}

/// The prefix that the directory of step `number` starts with (`{:03}-`).
pub fn step_dir_prefix(number: u32) -> (res: String)
    ensures
        res@ == step_prefix(number as nat),
{
    let mut res = String::new();
    push_pad3(&mut res, number as u64);
    push_char(&mut res, '-');
    assert(res@ =~= step_prefix(number as nat));
    res
}

/// Finds the directory of step `number` among the names of the step
/// directories: the first name that starts with the step's prefix. There is
/// none: `NoCurrentStep`.
pub fn find_step_dir(names: &Vec<String>, number: u32) -> (res: Result<usize, Error>)
    ensures
        res matches Ok(i) ==> i < names.len() && step_prefix(number as nat).is_prefix_of(
            names@[i as int]@,
        ) && forall|j: int|
            0 <= j < i ==> !step_prefix(number as nat).is_prefix_of(#[trigger] names@[j]@),
        res matches Err(e) ==> e is NoCurrentStep && forall|j: int|
            0 <= j < names.len() ==> !step_prefix(number as nat).is_prefix_of(
                #[trigger] names@[j]@,
            ),
{
    let prefix = step_dir_prefix(number);
    let mut i: usize = 0;
    while i < names.len()
        invariant
            i <= names.len(),
            prefix@ == step_prefix(number as nat),
            forall|j: int|
                0 <= j < i ==> !step_prefix(number as nat).is_prefix_of(#[trigger] names@[j]@),
        decreases names.len() - i,
    {
        if starts_with(names[i].as_str(), prefix.as_str()) {
            return Ok(i);
        }
        i = i + 1;
    }
    Err(Error::NoCurrentStep)
}

/// A decimal digit character.
pub open spec fn is_digit(c: char) -> bool {
    '0' <= c <= '9'
}

proof fn lemma_decimal_digits(n: nat)
    ensures
        forall|i: int| 0 <= i < decimal(n).len() ==> is_digit(#[trigger] decimal(n)[i]),
        decimal(n).len() >= 1,
        n >= 10 ==> decimal(n).len() >= 2,
        n >= 1 ==> decimal(n)[0] != '0',
    decreases n,
{
    if n >= 10 {
        lemma_decimal_digits(n / 10);
        assert forall|i: int| 0 <= i < decimal(n).len() implies is_digit(
            #[trigger] decimal(n)[i],
        ) by {
            if i < decimal(n).len() - 1 {
                assert(decimal(n)[i] == decimal(n / 10)[i]);
            }
        }
        assert(decimal(n)[0] == decimal(n / 10)[0]);
    }
}

proof fn lemma_decimal_injective(n: nat, m: nat)
    requires
        decimal(n) == decimal(m),
    ensures
        n == m,
    decreases n,
{
    lemma_decimal_digits(n);
    lemma_decimal_digits(m);
    if n < 10 {
        if m >= 10 {
            assert(decimal(m).len() >= 2);
        }
        assert(decimal(n)[0] == decimal(m)[0]);
        assert(decimal(n)[0] == digit_char(n));
        assert(decimal(m)[0] == digit_char(m));
        assert(digit_char(n) as u32 == n + 48);
        assert(digit_char(m) as u32 == m + 48);
        assert(n == m);
    } else {
        if m < 10 {
            assert(decimal(n).len() >= 2);
        }
        assert(decimal(n / 10) =~= decimal(n).drop_last());
        assert(decimal(m / 10) =~= decimal(m).drop_last());
        lemma_decimal_injective(n / 10, m / 10);
        assert(decimal(n).last() == decimal(m).last());
        assert(digit_char(n % 10) as u32 == n % 10 + 48);
        assert(digit_char(m % 10) as u32 == m % 10 + 48);
        assert(decimal(n).last() == digit_char(n % 10));
        assert(decimal(m).last() == digit_char(m % 10));
        assert(n % 10 == m % 10);
        assert(n / 10 == m / 10);
        assert(n == m);
    }
}

proof fn lemma_pad3_digits(n: nat)
    ensures
        forall|i: int| 0 <= i < pad3(n).len() ==> is_digit(#[trigger] pad3(n)[i]),
        pad3(n).len() >= 3,
{
    lemma_decimal_digits(n);
    let d = decimal(n);
    if d.len() < 3 {
        let z = Seq::new((3 - d.len()) as nat, |i: int| '0');
        assert forall|i: int| 0 <= i < pad3(n).len() implies is_digit(#[trigger] pad3(n)[i]) by {
            if i < z.len() {
                assert(pad3(n)[i] == z[i]);
            } else {
                assert(pad3(n)[i] == d[i - z.len()]);
            }
        }
    }
}

proof fn lemma_pad3_injective(n: nat, m: nat)
    requires
        pad3(n) == pad3(m),
    ensures
        n == m,
{
    lemma_decimal_digits(n);
    lemma_decimal_digits(m);
    let dn = decimal(n);
    let dm = decimal(m);
    if dn.len() >= 3 && dm.len() >= 3 {
        lemma_decimal_injective(n, m);
    } else if dn.len() < 3 && dm.len() < 3 {
        if dn.len() == dm.len() {
            let z = Seq::new((3 - dn.len()) as nat, |i: int| '0');
            assert(pad3(n).skip(z.len() as int) =~= dn);
            assert(pad3(m).skip(z.len() as int) =~= dm);
            lemma_decimal_injective(n, m);
        } else if dn.len() == 1 {
            // "00d" against "0dd": the middle digit of m is not zero
            assert(pad3(n)[1] == '0');
            assert(pad3(m)[1] == dm[0]);
        } else {
            assert(pad3(m)[1] == '0');
            assert(pad3(n)[1] == dn[0]);
        }
    } else if dn.len() >= 3 {
        assert(pad3(n)[0] == dn[0]);
        assert(pad3(m)[0] == '0');
    } else {
        assert(pad3(m)[0] == dm[0]);
        assert(pad3(n)[0] == '0');
    }
}

/// A step directory is found by its own number and by no other: the prefix of
/// step `m` starts the directory name of step `n` exactly when `m == n`.
pub proof fn step_dir_found_by_number(n: nat, m: nat, slug: Seq<char>)
    ensures
        step_prefix(m).is_prefix_of(step_dir_name_of(n, slug)) <==> m == n,
{
    let name = step_dir_name_of(n, slug);
    let pm = pad3(m);
    let pn = pad3(n);
    lemma_pad3_digits(n);
    lemma_pad3_digits(m);
    if m == n {
        assert(name.subrange(0, step_prefix(m).len() as int) =~= step_prefix(m));
    } else if step_prefix(m).is_prefix_of(name) {
        assert(name[pn.len() as int] == '-');
        if pn.len() < pm.len() {
            assert(step_prefix(m)[pn.len() as int] == pm[pn.len() as int]);
            assert(name[pn.len() as int] == step_prefix(m)[pn.len() as int]);
        } else if pn.len() > pm.len() {
            assert(name[pm.len() as int] == step_prefix(m)[pm.len() as int]);
            assert(name[pm.len() as int] == pn[pm.len() as int]);
        } else {
            assert forall|i: int| 0 <= i < pm.len() implies pm[i] == pn[i] by {
                assert(name[i] == step_prefix(m)[i]);
                assert(name[i] == pn[i]);
            }
            assert(pm =~= pn);
            lemma_pad3_injective(n, m);
        }
    }
}

// ---------------------------------------------------------------------------
// New steps and their files
// ---------------------------------------------------------------------------
/// The record of a step just created: pending, neither completed nor with a
/// transcript.
pub open spec fn is_new_step(
    s: StepConfig,
    number: u32,
    slug: Seq<char>,
    description: Seq<char>,
    context_files: Seq<String>,
    created_at: Seq<char>,
) -> bool {
    &&& s.number == number
    &&& s.slug@ == slug
    &&& s.status == StepStatus::Pending
    &&& s.description@ == description
    &&& s.context_files@ == context_files
    &&& s.created_at@ == created_at
    &&& s.completed_at is None
    &&& s.transcript_file is None
}

/// The record of a new step.
pub fn new_step(
    number: u32,
    slug: &str,
    description: &str,
    context_files: Vec<String>,
    created_at: String,
) -> (res: StepConfig)
    ensures
        is_new_step(res, number, slug@, description@, context_files@, created_at@),
{
    StepConfig {
        number,
        slug: owned(slug),
        status: StepStatus::Pending,
        description: owned(description),
        context_files,
        created_at,
        completed_at: None,
        transcript_file: None,
    }
}

/// The file name a transcript saved at time `stamp` gets (`{stamp}-transcript.txt`).
pub open spec fn transcript_file_name_of(stamp: Seq<char>) -> Seq<char> {
    stamp + "-transcript.txt"@
}

/// The file name of a transcript saved at time `stamp`.
pub fn transcript_file_name(stamp: &str) -> (res: String)
    ensures
        res@ == transcript_file_name_of(stamp@),
{
    let mut res = String::new();
    push_str(&mut res, stamp);
    push_str(&mut res, "-transcript.txt");
    assert(res@ =~= transcript_file_name_of(stamp@));
    res
}

} // verus!

verus! {

/// A step as listings show it: its record and the text of its `summary.md`,
/// when that file could be read.
pub struct StepOverview {
    pub step: StepConfig,
    pub summary: Option<String>,
}

/// The view of an optional string.
pub open spec fn opt_view(o: Option<String>) -> Option<Seq<char>> {
    match o {
        Some(s) => Some(s@),
        None => None,
    }
}

/// The number of completed steps among `steps`.
pub open spec fn completed_count(steps: Seq<StepOverview>) -> nat
    decreases steps.len(),
{
    if steps.len() == 0 {
        0
    } else {
        completed_count(steps.drop_last()) + if steps.last().step.status
            == StepStatus::Completed {
            1nat
        } else {
            0nat
        }
    }
}

/// Whether a step overview is of a completed step.
pub open spec fn is_completed_overview() -> spec_fn(StepOverview) -> bool {
    |o: StepOverview| o.step.status == StepStatus::Completed
}

/// The completed count is the number of steps whose status is completed.
pub proof fn completed_count_counts_completed(steps: Seq<StepOverview>)
    ensures
        completed_count(steps) == steps.filter(is_completed_overview()).len(),
    decreases steps.len(),
{
    if steps.len() == 0 {
        assert(steps.filter(is_completed_overview()) =~= steps) by {
            reveal(Seq::filter);
        }
    } else {
        let init = steps.drop_last();
        completed_count_counts_completed(init);
        init.lemma_filter_push(steps.last(), is_completed_overview());
        assert(init.push(steps.last()) =~= steps);
    }
}

/// Counts the completed steps.
pub fn count_completed(steps: &Vec<StepOverview>) -> (res: usize)
    ensures
        res == completed_count(steps@),
{
    let mut n: usize = 0;
    let mut i: usize = 0;
    while i < steps.len()
        invariant
            i <= steps.len(),
            n == completed_count(steps@.take(i as int)),
            n <= i,
        decreases steps.len() - i,
    {
        proof {
            assert(steps@.take(i + 1).drop_last() =~= steps@.take(i as int));
        }
        if steps[i].step.status == StepStatus::Completed {
            n = n + 1;
        }
        i = i + 1;
    }
    assert(steps@.take(steps.len() as int) =~= steps@);
    n
}

} // verus!
