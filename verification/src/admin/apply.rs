//! How a changed file takes effect: it is stored, the server reloads, and the old content is put
//! back where the reload fails.
use vstd::prelude::*;

verus! {

/// A step on the way.
#[derive(Debug, Clone, Copy, PartialEq, Eq, Structural)]
pub enum FileStep {
    /// Read the new content as a configuration and check its rules.
    Check,
    /// Read the old content.
    ReadOld,
    /// Store the new content, or delete the file.
    Store,
    /// Reload.
    Reload,
    /// Store the old content.
    PutBack,
    /// Reload with the old content.
    ReloadAgain,
}

/// What comes next.
#[derive(Debug, Clone, Copy, PartialEq, Eq, Structural)]
pub enum FileNext {
    Do(FileStep),
    Succeed,
    Fail,
}

/// What comes after a step that went well or not, at first where there was none. Only a
/// configuration is checked.
pub open spec fn after_step(is_config: bool, last: Option<FileStep>, ok: bool) -> FileNext {
    match last {
        None => if is_config {
            FileNext::Do(FileStep::Check)
        } else {
            FileNext::Do(FileStep::ReadOld)
        },
        Some(FileStep::Check) => if ok {
            FileNext::Do(FileStep::ReadOld)
        } else {
            FileNext::Fail
        },
        Some(FileStep::ReadOld) => if ok {
            FileNext::Do(FileStep::Store)
        } else {
            FileNext::Fail
        },
        Some(FileStep::Store) => if ok {
            FileNext::Do(FileStep::Reload)
        } else {
            FileNext::Fail
        },
        Some(FileStep::Reload) => if ok {
            FileNext::Succeed
        } else {
            FileNext::Do(FileStep::PutBack)
        },
        Some(FileStep::PutBack) => FileNext::Do(FileStep::ReloadAgain),
        Some(FileStep::ReloadAgain) => FileNext::Fail,
    }
}

/// What comes after a step that went well or not, at first where there was none.
pub fn next_file_step(is_config: bool, last: Option<FileStep>, ok: bool) -> (r: FileNext)
    ensures
        r == after_step(is_config, last, ok),
{
    match last {
        None => if is_config {
            FileNext::Do(FileStep::Check)
        } else {
            FileNext::Do(FileStep::ReadOld)
        },
        Some(FileStep::Check) => if ok {
            FileNext::Do(FileStep::ReadOld)
        } else {
            FileNext::Fail
        },
        Some(FileStep::ReadOld) => if ok {
            FileNext::Do(FileStep::Store)
        } else {
            FileNext::Fail
        },
        Some(FileStep::Store) => if ok {
            FileNext::Do(FileStep::Reload)
        } else {
            FileNext::Fail
        },
        Some(FileStep::Reload) => if ok {
            FileNext::Succeed
        } else {
            FileNext::Do(FileStep::PutBack)
        },
        Some(FileStep::PutBack) => FileNext::Do(FileStep::ReloadAgain),
        Some(FileStep::ReloadAgain) => FileNext::Fail,
    }
}

/// How the steps go, each of them well or not.
pub ghost struct Luck {
    pub check: bool,
    pub read_old: bool,
    pub store: bool,
    pub reload: bool,
    pub put_back: bool,
    pub reload_again: bool,
}

pub open spec fn goes_well(luck: Luck, step: FileStep) -> bool {
    match step {
        FileStep::Check => luck.check,
        FileStep::ReadOld => luck.read_old,
        FileStep::Store => luck.store,
        FileStep::Reload => luck.reload,
        FileStep::PutBack => luck.put_back,
        FileStep::ReloadAgain => luck.reload_again,
    }
}

/// What a step makes of the content of the file; one that fails leaves it.
pub open spec fn content_after(
    content: Option<Seq<char>>,
    old: Option<Seq<char>>,
    new: Option<Seq<char>>,
    step: FileStep,
    ok: bool,
) -> Option<Seq<char>> {
    if !ok {
        content
    } else if step == FileStep::Store {
        new
    } else if step == FileStep::PutBack {
        old
    } else {
        content
    }
}

pub open spec fn steps_left(last: Option<FileStep>) -> nat {
    match last {
        None => 6,
        Some(FileStep::Check) => 5,
        Some(FileStep::ReadOld) => 4,
        Some(FileStep::Store) => 3,
        Some(FileStep::Reload) => 2,
        Some(FileStep::PutBack) => 1,
        Some(FileStep::ReloadAgain) => 0,
    }
}

/// Whether the change succeeds, and what the file holds in the end, from after a step on.
pub open spec fn course(
    is_config: bool,
    luck: Luck,
    old: Option<Seq<char>>,
    new: Option<Seq<char>>,
    last: Option<FileStep>,
    ok: bool,
    content: Option<Seq<char>>,
) -> (bool, Option<Seq<char>>)
    decreases steps_left(last),
{
    match after_step(is_config, last, ok) {
        FileNext::Succeed => (true, content),
        FileNext::Fail => (false, content),
        FileNext::Do(step) => course(
            is_config,
            luck,
            old,
            new,
            Some(step),
            goes_well(luck, step),
            content_after(content, old, new, step, goes_well(luck, step)),
        ),
    }
}

/// A change that succeeds leaves the new content; one that fails leaves the old, as long as the
/// old content can be put back.
pub proof fn lemma_all_or_nothing(
    is_config: bool,
    luck: Luck,
    old: Option<Seq<char>>,
    new: Option<Seq<char>>,
)
    requires
        luck.put_back,
    ensures
        ({
            let (succeeds, content) = course(is_config, luck, old, new, None, true, old);
            content == (if succeeds {
                new
            } else {
                old
            })
        }),
{
    reveal_with_fuel(course, 8);
}

/// A change takes effect only where everything on the way goes well: a configuration that breaks
/// a rule is never stored.
pub proof fn lemma_effective(
    is_config: bool,
    luck: Luck,
    old: Option<Seq<char>>,
    new: Option<Seq<char>>,
)
    ensures
        course(is_config, luck, old, new, None, true, old).0 == ((is_config ==> luck.check)
            && luck.read_old && luck.store && luck.reload),
        is_config && !luck.check ==> course(is_config, luck, old, new, None, true, old).1 == old,
{
    reveal_with_fuel(course, 8);
}

} // verus!
