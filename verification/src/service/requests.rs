//! What clients ask for.
//!
//! Everything that can be refused before a job exists is refused at once, so a
//! client hears "that list is empty" as an error to its call and not as a job
//! that fails a moment later.

use vstd::prelude::*;

use crate::jobs::{Effect, JobId, JobKind};
use crate::paths;
use crate::restore::{self, Class, PlanEntry, RestorePreview, Restores};
use crate::service::error::{DaemonError, Result};
use crate::service::on_disk::OnDisk;
use crate::service::preview::without_engine;
#[allow(unused_imports)]
use crate::service::preview::no_destination;
use crate::service::shared::Shared;
use crate::service::state::{quote, RestorePolicy};
#[allow(unused_imports)]
use crate::service::state::{a_spelling_stands_for_one_policy, is_unknown_policy, quoted};
use crate::text;
#[allow(unused_imports)]
use crate::text::{decimal, without_white_end, without_white_start};

verus! {

/// What becomes of a file that a restore would replace.
#[derive(Debug, Clone, Copy, PartialEq, Eq, Structural)]
pub enum Decision {
    Replace,
    KeepBoth,
    Skip,
}

impl Decision {
    /// The decision a wire spelling stands for.
    pub open spec fn named(value: Seq<char>) -> Option<Decision> {
        if value == "replace"@ {
            Some(Decision::Replace)
        } else if value == "keep-both"@ {
            Some(Decision::KeepBoth)
        } else if value == "skip"@ {
            Some(Decision::Skip)
        } else {
            None
        }
    }

    /// Parse the wire spelling.
    pub fn parse(value: &str) -> (decision: Option<Decision>)
        ensures
            decision == Decision::named(value@),
            decision == Some(Decision::Replace) <==> value@ == "replace"@,
            decision == Some(Decision::KeepBoth) <==> value@ == "keep-both"@,
            decision == Some(Decision::Skip) <==> value@ == "skip"@,
    {
        proof {
            lemma_decisions_differ();
        }
        if text::same(value, "replace") {
            Some(Decision::Replace)
        } else if text::same(value, "keep-both") {
            Some(Decision::KeepBoth)
        } else if text::same(value, "skip") {
            Some(Decision::Skip)
        } else {
            None
        }
    }
}

/// No two decisions are spelled alike.
proof fn lemma_decisions_differ()
    ensures
        "replace"@ != "keep-both"@,
        "replace"@ != "skip"@,
        "keep-both"@ != "skip"@,
{
    reveal_strlit("replace");
    reveal_strlit("keep-both");
    reveal_strlit("skip");
    assert("replace"@[0] == 'r');
    assert("keep-both"@[0] == 'k');
    assert("skip"@[0] == 's');
}

/// What a policy answers where there is nobody to ask: a restore must not
/// overwrite work because it could not put the question.
pub fn decision_for(policy: RestorePolicy) -> (decision: Decision)
    ensures
        decision == match policy {
            RestorePolicy::Replace => Decision::Replace,
            RestorePolicy::KeepBoth => Decision::KeepBoth,
            RestorePolicy::Ask | RestorePolicy::SkipIdentical => Decision::Skip,
        },
{
    match policy {
        RestorePolicy::Replace => Decision::Replace,
        RestorePolicy::KeepBoth => Decision::KeepBoth,
        RestorePolicy::Ask | RestorePolicy::SkipIdentical => Decision::Skip,
    }
}

/// The answers to a worked-out restore: one for every conflict, and others for
/// single paths.
#[derive(Debug, PartialEq, Eq)]
pub struct Decisions {
    pub blanket: Decision,
    /// Later ones count.
    pub exceptions: Vec<(String, Decision)>,
}

/// The answer for a path.
pub open spec fn answer(blanket: Decision, exceptions: Seq<(String, Decision)>, path: Seq<char>) ->
    Decision
    decreases exceptions.len(),
{
    if exceptions.len() == 0 {
        blanket
    } else if exceptions.last().0@ == path {
        exceptions.last().1
    } else {
        answer(blanket, exceptions.drop_last(), path)
    }
}

impl Decisions {
    /// The answer for a path.
    pub fn for_path(&self, path: &str) -> (decision: Decision)
        ensures
            decision == answer(self.blanket, self.exceptions@, path@),
            forall|k: int|
                0 <= k < self.exceptions@.len() && (#[trigger] self.exceptions@[k]).0@ == path@ && (
                forall|j: int|
                    k < j < self.exceptions@.len() ==> (#[trigger] self.exceptions@[j]).0@ != path@)
                    ==> decision == self.exceptions@[k].1,
            (forall|k: int|
                0 <= k < self.exceptions@.len() ==> (#[trigger] self.exceptions@[k]).0@ != path@)
                ==> decision == self.blanket,
    {
        proof {
            the_last_word_on_a_path_counts(self.blanket, self.exceptions@, path@);
        }
        let mut i: usize = self.exceptions.len();
        assert(self.exceptions@.take(i as int) =~= self.exceptions@);
        while i > 0
            invariant
                i <= self.exceptions@.len(),
                answer(self.blanket, self.exceptions@.take(i as int), path@) == answer(
                    self.blanket,
                    self.exceptions@,
                    path@,
                ),
            decreases i,
        {
            proof {
                let part = self.exceptions@.take(i as int);
                assert(part.last() == self.exceptions@[i - 1]);
                assert(part.drop_last() =~= self.exceptions@.take(i - 1));
            }
            if text::same(self.exceptions[i - 1].0.as_str(), path) {
                proof {
                    the_last_word_on_a_path_counts(self.blanket, self.exceptions@, path@);
                }
                return self.exceptions[i - 1].1;
            }
            i -= 1;
        }
        self.blanket
    }

    /// The answer for an entry of a worked-out restore. A change of type is not
    /// covered by the blanket answer: unless its path is named, it is left alone.
    pub fn for_entry(&self, entry: &PlanEntry) -> (decision: Decision)
        ensures
            decision == answer_for(self.blanket, self.exceptions@, *entry),
            forall|k: int|
                0 <= k < self.exceptions@.len() && (#[trigger] self.exceptions@[k]).0@ == entry.path@ && (
                forall|j: int|
                    k < j < self.exceptions@.len() ==> (#[trigger] self.exceptions@[j]).0@ != entry.path@)
                    ==> decision == self.exceptions@[k].1,
            (forall|k: int|
                0 <= k < self.exceptions@.len() ==> (#[trigger] self.exceptions@[k]).0@ != entry.path@)
                ==> decision == (if entry.class is TypeChanged {
                    Decision::Skip
                } else {
                    self.blanket
                }),
    {
        proof {
            the_last_word_on_a_path_counts(self.blanket, self.exceptions@, entry.path@);
        }
        let mut i: usize = 0;
        let mut named = false;
        while i < self.exceptions.len()
            invariant
                i <= self.exceptions@.len(),
                named <==> exists|k: int|
                    0 <= k < i && (#[trigger] self.exceptions@[k]).0@ == entry.path@,
            decreases self.exceptions@.len() - i,
        {
            if text::same(self.exceptions[i].0.as_str(), entry.path.as_str()) {
                named = true;
            }
            i += 1;
        }
        match entry.class {
            Class::TypeChanged if !named => Decision::Skip,
            _ => self.for_path(entry.path.as_str()),
        }
    }
}

/// The last word on a path counts: where it is named, the answer is the one given
/// where it is named last, whatever the blanket answer is; where it is not named, the
/// blanket answer is the one.
pub proof fn the_last_word_on_a_path_counts(
    blanket: Decision,
    exceptions: Seq<(String, Decision)>,
    path: Seq<char>,
)
    ensures
        forall|k: int|
            0 <= k < exceptions.len() && (#[trigger] exceptions[k]).0@ == path && (forall|j: int|
                k < j < exceptions.len() ==> (#[trigger] exceptions[j]).0@ != path) ==> answer(
                blanket,
                exceptions,
                path,
            ) == exceptions[k].1,
        (forall|k: int| 0 <= k < exceptions.len() ==> (#[trigger] exceptions[k]).0@ != path)
            ==> answer(blanket, exceptions, path) == blanket,
    decreases exceptions.len(),
{
    if exceptions.len() > 0 && exceptions.last().0@ != path {
        let front = exceptions.drop_last();
        the_last_word_on_a_path_counts(blanket, front, path);
        assert forall|k: int|
            0 <= k < exceptions.len() && (#[trigger] exceptions[k]).0@ == path && (forall|j: int|
                k < j < exceptions.len() ==> (#[trigger] exceptions[j]).0@ != path) implies answer(
            blanket,
            exceptions,
            path,
        ) == exceptions[k].1 by {
            assert(front[k] == exceptions[k]);
            assert forall|j: int| k < j < front.len() implies (#[trigger] front[j]).0@ != path by {
                assert(exceptions[j].0@ != path);
            }
        }
        if forall|k: int| 0 <= k < exceptions.len() ==> (#[trigger] exceptions[k]).0@ != path {
            assert forall|k: int| 0 <= k < front.len() implies (#[trigger] front[k]).0@ != path by {
                assert(exceptions[k].0@ != path);
            }
        }
    } else if exceptions.len() > 0 {
        let last = exceptions.len() - 1;
        assert forall|k: int|
            0 <= k < exceptions.len() && (#[trigger] exceptions[k]).0@ == path && (forall|j: int|
                k < j < exceptions.len() ==> (#[trigger] exceptions[j]).0@ != path) implies answer(
            blanket,
            exceptions,
            path,
        ) == exceptions[k].1 by {
            if k < last {
                assert(exceptions[last].0@ != path);
            }
        }
        assert(exceptions[last].0@ == path);
    }
}

/// Whether a path is named among some exceptions.
pub open spec fn is_named(exceptions: Seq<(String, Decision)>, path: Seq<char>) -> bool {
    exists|k: int| 0 <= k < exceptions.len() && (#[trigger] exceptions[k]).0@ == path
}

/// The answer for an entry of a worked-out restore.
pub open spec fn answer_for(
    blanket: Decision,
    exceptions: Seq<(String, Decision)>,
    entry: PlanEntry,
) -> Decision {
    if entry.class == Class::TypeChanged && !is_named(exceptions, entry.path@) {
        Decision::Skip
    } else {
        answer(blanket, exceptions, entry.path@)
    }
}

/// A change of type never happens unless its path is named: whatever the blanket
/// answer is, the answer for it is the same.
pub proof fn a_change_of_type_has_to_be_named(
    one: Decision,
    other: Decision,
    exceptions: Seq<(String, Decision)>,
    entry: PlanEntry,
)
    requires
        entry.class == Class::TypeChanged,
    ensures
        answer_for(one, exceptions, entry) == answer_for(other, exceptions, entry),
        !is_named(exceptions, entry.path@) ==> answer_for(one, exceptions, entry)
            == Decision::Skip,
{
    if is_named(exceptions, entry.path@) {
        lemma_named_answer(one, other, exceptions, entry.path@);
    }
}

/// The answer for a path that is named does not depend on the blanket answer.
proof fn lemma_named_answer(
    one: Decision,
    other: Decision,
    exceptions: Seq<(String, Decision)>,
    path: Seq<char>,
)
    requires
        is_named(exceptions, path),
    ensures
        answer(one, exceptions, path) == answer(other, exceptions, path),
    decreases exceptions.len(),
{
    if exceptions.last().0@ != path {
        let k = choose|k: int| 0 <= k < exceptions.len() && (#[trigger] exceptions[k]).0@ == path;
        assert(exceptions.drop_last()[k].0@ == path);
        lemma_named_answer(one, other, exceptions.drop_last(), path);
    }
}

/// Whether an error says that no restore is prepared under a job.
pub open spec fn not_prepared(error: DaemonError, job: JobId) -> bool {
    &&& error is NoSuchJob
    &&& error.words() == "no restore is prepared under job "@ + decimal(job as nat)
}

/// The error for a job under which no restore is prepared.
fn nothing_prepared(job: JobId) -> (error: DaemonError)
    ensures
        not_prepared(error, job),
{
    DaemonError::NoSuchJob(
        text::joined("no restore is prepared under job ", text::decimal_text(job).as_str()),
    )
}

/// What the restore prepared under `job` would do.
pub fn get_restore_preview<L>(restores: &Restores<L>, job: JobId) -> (result: Result<
    RestorePreview,
>)
    ensures
        result is Ok <==> restores@.dom().contains(job),
        result matches Err(error) ==> not_prepared(error, job),
        result matches Ok(summary) ==> {
            let plan = restores@[job].plan;
            &&& summary.archive@ == plan.archive@
            &&& summary.dest@ == plan.dest@
            &&& summary.identical == plan.counts.identical as u32
            &&& summary.conflicts == plan.counts.conflicts as u32
            &&& summary.disk_newer == plan.counts.disk_newer as u32
            &&& summary.only_in_backup == plan.counts.only_in_backup as u32
            &&& summary.only_on_disk == plan.counts.only_on_disk as u32
            &&& summary.type_changed == plan.counts.type_changed as u32
            &&& restore::shows_all(summary.entries@, plan.entries@)
            &&& summary.refused@ == plan.refused@
            &&& summary.notes@ == plan.notes@
        },
{
    match restores.plan(job) {
        Some(plan) => Ok(restore::preview(plan)),
        None => Err(nothing_prepared(job)),
    }
}

/// Whether an error says that a word, printed as `printed`, is no decision.
pub open spec fn is_unknown_blanket(error: DaemonError, printed: Seq<char>) -> bool {
    &&& error is InvalidArgument
    &&& error.words() == "unknown decision "@ + printed
        + "; expected one of replace, keep-both, skip"@
}

/// The error for a blanket answer that is no decision.
pub fn unknown_blanket(printed: &str) -> (error: DaemonError)
    ensures
        is_unknown_blanket(error, printed@),
{
    let mut words = text::joined("unknown decision ", printed);
    words.append("; expected one of replace, keep-both, skip");
    DaemonError::InvalidArgument(words)
}

/// Whether an error says that the answer for a path is no decision.
pub open spec fn is_unknown_answer(
    error: DaemonError,
    printed: Seq<char>,
    printed_path: Seq<char>,
) -> bool {
    &&& error is InvalidArgument
    &&& error.words() == "unknown decision "@ + printed + " for "@ + printed_path
}

/// The error for the answer to a path that is no decision.
pub fn unknown_answer(printed: &str, printed_path: &str) -> (error: DaemonError)
    ensures
        is_unknown_answer(error, printed@, printed_path@),
{
    let mut words = text::joined("unknown decision ", printed);
    words.append(" for ");
    words.append(printed_path);
    DaemonError::InvalidArgument(words)
}

/// The first answer that is no decision.
pub open spec fn first_unknown(answers: Seq<(String, String)>) -> int
    decreases answers.len(),
{
    if answers.len() == 0 {
        0
    } else if Decision::named(answers[0].1@) is None {
        0
    } else {
        1 + first_unknown(answers.drop_first())
    }
}

proof fn lemma_first_unknown(answers: Seq<(String, String)>, k: int)
    requires
        0 <= k <= answers.len(),
        forall|i: int| 0 <= i < k ==> Decision::named((#[trigger] answers[i]).1@) is Some,
        k < answers.len() ==> Decision::named(answers[k].1@) is None,
    ensures
        first_unknown(answers) == k,
    decreases answers.len(),
{
    if k > 0 {
        let rest = answers.drop_first();
        assert(Decision::named(answers[0].1@) is Some);
        assert forall|i: int| 0 <= i < k - 1 implies Decision::named(
            (#[trigger] rest[i]).1@,
        ) is Some by {
            assert(rest[i] == answers[i + 1]);
        }
        lemma_first_unknown(rest, k - 1);
    }
}

/// Whether some exceptions are those that a client named.
pub open spec fn are_answers(
    exceptions: Seq<(String, Decision)>,
    answers: Seq<(String, String)>,
) -> bool {
    &&& exceptions.len() == answers.len()
    &&& forall|i: int|
        0 <= i < answers.len() ==> (#[trigger] exceptions[i]).0@ == answers[i].0@
            && Decision::named(answers[i].1@) == Some(exceptions[i].1)
}

/// Read the answers to the restore prepared under `job`.
///
/// `blanket` answers every conflict the summary covered; `answers` are for single
/// paths. A change of type is never covered by the blanket answer.
pub fn execute_restore<L>(
    restores: &Restores<L>,
    job: JobId,
    blanket: &str,
    answers: Vec<(String, String)>,
) -> (result: Result<Decisions>)
    ensures
        if !restores@.dom().contains(job) {
            result matches Err(error) && not_prepared(error, job)
        } else if Decision::named(blanket@) is None {
            result matches Err(error) && is_unknown_blanket(error, quoted(blanket@))
        } else if first_unknown(answers@) < answers@.len() {
            let wrong = answers@[first_unknown(answers@)];
            result matches Err(error) && is_unknown_answer(error, quoted(wrong.1@), quoted(wrong.0@))
        } else {
            &&& result matches Ok(decisions)
            &&& Some(decisions.blanket) == Decision::named(blanket@)
            &&& are_answers(decisions.exceptions@, answers@)
        },
        result is Ok <==> {
            &&& restores@.dom().contains(job)
            &&& blanket@ == "replace"@ || blanket@ == "keep-both"@ || blanket@ == "skip"@
            &&& forall|i: int|
                0 <= i < answers@.len() ==> (#[trigger] answers@[i]).1@ == "replace"@
                    || answers@[i].1@ == "keep-both"@ || answers@[i].1@ == "skip"@
        },
        result matches Ok(decisions) ==> {
            &&& decisions.blanket == Decision::Replace <==> blanket@ == "replace"@
            &&& decisions.blanket == Decision::KeepBoth <==> blanket@ == "keep-both"@
            &&& decisions.exceptions@.len() == answers@.len()
            &&& forall|i: int|
                0 <= i < answers@.len() ==> {
                    &&& (#[trigger] decisions.exceptions@[i]).0@ == answers@[i].0@
                    &&& decisions.exceptions@[i].1 == Decision::Replace <==> answers@[i].1@
                        == "replace"@
                    &&& decisions.exceptions@[i].1 == Decision::KeepBoth <==> answers@[i].1@
                        == "keep-both"@
                    &&& decisions.exceptions@[i].1 == Decision::Skip <==> answers@[i].1@
                        == "skip"@
                }
        },
{
    proof {
        lemma_decisions_differ();
    }
    if !restores.holds(job) {
        return Err(nothing_prepared(job));
    }
    let all = match Decision::parse(blanket) {
        Some(decision) => decision,
        None => {
            return Err(unknown_blanket(quote(blanket).as_str()));
        },
    };
    let mut exceptions: Vec<(String, Decision)> = Vec::new();
    let mut i: usize = 0;
    while i < answers.len()
        invariant
            i <= answers@.len(),
            restores@.dom().contains(job),
            Decision::named(blanket@) == Some(all),
            are_answers(exceptions@, answers@.take(i as int)),
            forall|k: int|
                0 <= k < i ==> Decision::named((#[trigger] answers@[k]).1@) is Some,
        decreases answers@.len() - i,
    {
        match Decision::parse(answers[i].1.as_str()) {
            Some(decision) => {
                let ghost before = exceptions@;
                exceptions.push((answers[i].0.clone(), decision));
                proof {
                    let part = answers@.take(i + 1);
                    assert forall|k: int| 0 <= k < part.len() implies (
                    #[trigger] exceptions@[k]).0@ == part[k].0@ && Decision::named(part[k].1@)
                        == Some(exceptions@[k].1) by {
                        if k < i {
                            assert(exceptions@[k] == before[k]);
                            assert(answers@.take(i as int)[k] == answers@[k]);
                        }
                    }
                }
            },
            None => {
                proof {
                    lemma_first_unknown(answers@, i as int);
                }
                return Err(
                    unknown_answer(
                        quote(answers[i].1.as_str()).as_str(),
                        quote(answers[i].0.as_str()).as_str(),
                    ),
                );
            },
        }
        i += 1;
    }
    proof {
        lemma_first_unknown(answers@, i as int);
        assert(answers@.take(i as int) =~= answers@);
    }
    Ok(Decisions { blanket: all, exceptions })
}

/// Whether the restore under `job` can be undone: the error where nothing is
/// recorded of it.
pub fn undo_restore<L>(restores: &Restores<L>, job: JobId) -> (result: Result<()>)
    ensures
        result is Ok <==> restores@.dom().contains(job) && restores@[job].log is Some,
        result matches Err(error) ==> {
            &&& error is NoSuchJob
            &&& error.words() == "job "@ + decimal(job as nat) + " has nothing recorded to undo"@
        },
{
    if restores.log(job).is_none() {
        let mut words = text::joined("job ", text::decimal_text(job).as_str());
        words.append(" has nothing recorded to undo");
        return Err(DaemonError::NoSuchJob(words));
    }
    Ok(())
}

/// A restore request that has passed its checks but has no job yet.
#[derive(Debug, PartialEq, Eq)]
pub struct PendingRestore {
    pub archive: String,
    pub paths: Vec<String>,
    pub dest: String,
    /// Whether what was asked for lands inside `dest`, and not at the absolute path
    /// it came from.
    pub into_dest: bool,
}

/// Whether a request asks for these paths of this archive.
pub open spec fn asks_for(
    pending: PendingRestore,
    archive: Seq<char>,
    paths: Seq<String>,
    dest: Seq<char>,
    into_dest: bool,
) -> bool {
    &&& pending.archive@ == archive
    &&& pending.paths@ == paths
    &&& pending.dest@ == dest
    &&& pending.into_dest == into_dest
}

/// Whether an error says that a restore needs a path.
pub open spec fn needs_a_path(error: DaemonError) -> bool {
    error is InvalidArgument && error.words() == "restore needs at least one path"@
}

impl Shared {
    /// Check a restore request.
    pub fn restore_preflight(&self, archive: &str, paths: &Vec<String>, dest: &str) -> (result:
        Result<PendingRestore>)
        ensures
            if paths@.len() == 0 {
                result matches Err(error) && needs_a_path(error)
            } else if !self.has_engine {
                result matches Err(error) && no_destination(error)
            } else {
                result matches Ok(pending) && asks_for(pending, archive@, paths@, dest@, false)
            },
            result is Ok <==> paths@.len() > 0 && self.has_engine,
            result matches Ok(pending) ==> pending.archive@ == archive@ && pending.paths@ == paths@
                && pending.dest@ == dest@ && !pending.into_dest,
    {
        if paths.len() == 0 {
            return Err(DaemonError::InvalidArgument("restore needs at least one path".to_owned()));
        }
        if !self.has_engine {
            return Err(without_engine());
        }
        Ok(
            PendingRestore {
                archive: archive.to_owned(),
                paths: text::copies(paths),
                dest: dest.to_owned(),
                into_dest: false,
            },
        )
    }

    /// Check a request to restore with nobody to ask, and what its policy answers.
    pub fn restore_files(&self, archive: &str, paths: &Vec<String>, dest: &str, policy: &str) -> (
        result: Result<(PendingRestore, Decision)>)
        ensures
            match RestorePolicy::named(policy@) {
                None => result matches Err(error) && is_unknown_policy(error, quoted(policy@)),
                Some(named) => if paths@.len() == 0 {
                    result matches Err(error) && needs_a_path(error)
                } else if !self.has_engine {
                    result matches Err(error) && no_destination(error)
                } else {
                    &&& result matches Ok((pending, decision))
                    &&& asks_for(pending, archive@, paths@, dest@, false)
                    &&& decision == match named {
                        RestorePolicy::Replace => Decision::Replace,
                        RestorePolicy::KeepBoth => Decision::KeepBoth,
                        RestorePolicy::Ask | RestorePolicy::SkipIdentical => Decision::Skip,
                    }
                },
            },
            result matches Ok((pending, decision)) ==> {
                &&& pending.archive@ == archive@ && pending.paths@ == paths@ && pending.dest@
                    == dest@ && !pending.into_dest
                &&& paths@.len() > 0 && self.has_engine
                // Nothing is overwritten unless that was asked for.
                &&& decision == Decision::Replace <==> policy@ == "replace"@
                &&& decision == Decision::KeepBoth <==> policy@ == "keep-both"@
                &&& decision == Decision::Skip <==> policy@ == "ask"@ || policy@
                    == "skip-identical"@
            },
    {
        proof {
            a_spelling_stands_for_one_policy(policy@);
            reveal_strlit("ask");
            reveal_strlit("keep-both");
            reveal_strlit("replace");
            reveal_strlit("skip-identical");
            assert("ask"@.len() == 3 && "keep-both"@.len() == 9 && "replace"@.len() == 7
                && "skip-identical"@.len() == 14);
        }

        let policy = match RestorePolicy::parse(policy) {
            Ok(policy) => policy,
            Err(error) => {
                return Err(error);
            },
        };
        match self.restore_preflight(archive, paths, dest) {
            Ok(pending) => Ok((pending, decision_for(policy))),
            Err(error) => Err(error),
        }
    }

    /// Check a request to restore one path into a directory made for it. Two
    /// folders' contents merged into one directory would be another operation.
    pub fn restore_into(&self, archive: &str, paths: &Vec<String>, dest: &str) -> (result: Result<
        PendingRestore,
    >)
        ensures
            if paths@.len() != 1 {
                &&& result matches Err(error)
                &&& error is InvalidArgument
                &&& error.words() == "RestoreInto takes exactly one path; got "@ + decimal(
                    paths@.len(),
                )
            } else if !self.has_engine {
                result matches Err(error) && no_destination(error)
            } else {
                result matches Ok(pending) && asks_for(pending, archive@, paths@, dest@, true)
            },
            result is Ok <==> paths@.len() == 1 && self.has_engine,
            result matches Ok(pending) ==> pending.archive@ == archive@ && pending.paths@ == paths@
                && pending.dest@ == dest@ && pending.into_dest,
    {
        let n: usize = paths.len();
        if n != 1 {
            return Err(
                DaemonError::InvalidArgument(
                    text::joined(
                        "RestoreInto takes exactly one path; got ",
                        text::decimal_text(n as u64).as_str(),
                    ),
                ),
            );
        }
        match self.restore_preflight(archive, paths, dest) {
            Ok(pending) => Ok(
                PendingRestore {
                    archive: pending.archive,
                    paths: pending.paths,
                    dest: pending.dest,
                    into_dest: true,
                },
            ),
            Err(error) => Err(error),
        }
    }

    /// Where a restore job stages its extracted copy.
    pub open spec fn staging_for(self, job: JobId) -> Seq<char> {
        paths::after(self.layout.staging_dir@, decimal(job as nat))
    }

    /// Queue a restore. Its staging directory is named for the job, and the plan is
    /// filed under the same id.
    pub fn submit_restore(&mut self) -> (queued: (JobId, String, Vec<Effect>))
        requires
            old(self).wf(),
            old(self).jobs.jobs().len() < u64::MAX,
        ensures
            final(self).wf(),
            old(self).jobs.takes_in(JobKind::Restore, final(self).jobs, queued.0, queued.2@),
            queued.1@ == old(self).staging_for(queued.0),
            final(self).keeps_all_but_jobs(*old(self)),
    {
        let (job, effects) = self.jobs.submit(JobKind::Restore);
        let staging = paths::join(
            self.layout.staging_dir.as_str(),
            text::decimal_text(job).as_str(),
        );
        (job, staging, effects)
    }

    /// Queue work on the repository, which needs an engine.
    pub fn submit(&mut self, kind: JobKind) -> (result: Result<(JobId, Vec<Effect>)>)
        requires
            old(self).wf(),
            old(self).jobs.jobs().len() < u64::MAX,
        ensures
            final(self).wf(),
            result is Ok <==> old(self).has_engine,
            result matches Err(error) ==> no_destination(error) && *final(self) == *old(self),
            result matches Ok((job, effects)) ==> {
                &&& old(self).jobs.takes_in(kind, final(self).jobs, job, effects@)
                &&& final(self).keeps_all_but_jobs(*old(self))
            },
    {
        if !self.has_engine {
            return Err(without_engine());
        }
        Ok(self.jobs.submit(kind))
    }

    /// Queue the recovery of everything in an archive.
    pub fn restore_everything(&mut self, policy: &str) -> (result: Result<(JobId, Vec<Effect>)>)
        requires
            old(self).wf(),
            old(self).jobs.jobs().len() < u64::MAX,
        ensures
            final(self).wf(),
            if !old(self).has_engine {
                result matches Err(error) && no_destination(error) && *final(self) == *old(self)
            } else if RestorePolicy::named(policy@) is None {
                result matches Err(error) && is_unknown_policy(error, quoted(policy@))
                    && *final(self) == *old(self)
            } else {
                &&& result matches Ok((job, effects))
                &&& old(self).jobs.takes_in(
                    JobKind::RestoreEverything,
                    final(self).jobs,
                    job,
                    effects@,
                )
                &&& final(self).keeps_all_but_jobs(*old(self))
            },
    {
        if !self.has_engine {
            return Err(without_engine());
        }
        match RestorePolicy::parse(policy) {
            Ok(_) => Ok(self.jobs.submit(JobKind::RestoreEverything)),
            Err(error) => Err(error),
        }
    }

    /// Adopt a repository that answered: it is the destination now, and has an
    /// engine.
    pub fn use_repository(&mut self, path: &str)
        ensures
            final(self).config.repository is Some,
            final(self).config.repository->0@ == path@,
            final(self).config == (crate::service::config::Config {
                repository: final(self).config.repository,
                ..old(self).config
            }),
            *final(self) == (Shared {
                config: final(self).config,
                has_engine: true,
                ..*old(self)
            }),
    {
        self.config.repository = Some(path.to_owned());
        self.has_engine = true;
    }
}

/// The steps of adopting a repository as the destination.
#[derive(Debug, Clone, Copy, PartialEq, Eq, Structural)]
pub enum RepoStep {
    /// Build an engine that has the passphrase at hand and not from the store; only
    /// for an existing repository.
    Try,
    /// Ask the repository about itself, which verifies the passphrase; only for an
    /// existing one.
    ReadInfo,
    /// Store the passphrase.
    StoreSecret,
    /// Build the engine, with the stored passphrase.
    Connect,
    /// Create the repository; only for a new one.
    Initialise,
    /// Write the settings, and use the repository from now on.
    Save,
    /// Catalogue the newest archive now and the rest behind it; only for an
    /// existing one.
    AdoptCatalogue,
}

impl RepoStep {
    /// Whether the step leaves anything behind: a stored passphrase, a repository,
    /// settings and the engine in use, or a catalogue.
    pub open spec fn writes(self) -> bool {
        match self {
            RepoStep::Try | RepoStep::ReadInfo | RepoStep::Connect => false,
            RepoStep::StoreSecret | RepoStep::Initialise | RepoStep::Save
            | RepoStep::AdoptCatalogue => true,
        }
    }
}

/// What follows a step of adopting a repository.
#[derive(Debug, Clone, Copy, PartialEq, Eq, Structural)]
pub enum RepoNext {
    Do(RepoStep),
    Done,
    /// Answer with the step's error.
    Fail,
}

/// The first step of adopting a repository that is new, or exists already: the
/// passphrase of an existing one is verified before it is stored.
pub open spec fn first_of_adopting(existing: bool) -> RepoStep {
    if existing {
        RepoStep::Try
    } else {
        RepoStep::StoreSecret
    }
}

/// What follows a step of adopting a repository, which went well or did not.
pub open spec fn next_of_adopting(existing: bool, step: RepoStep, ok: bool) -> RepoNext {
    if !ok {
        RepoNext::Fail
    } else {
        match step {
            RepoStep::Try => RepoNext::Do(RepoStep::ReadInfo),
            RepoStep::ReadInfo => RepoNext::Do(RepoStep::StoreSecret),
            RepoStep::StoreSecret => RepoNext::Do(RepoStep::Connect),
            RepoStep::Connect => RepoNext::Do(
                if existing {
                    RepoStep::Save
                } else {
                    RepoStep::Initialise
                },
            ),
            RepoStep::Initialise => RepoNext::Do(RepoStep::Save),
            RepoStep::Save => if existing {
                RepoNext::Do(RepoStep::AdoptCatalogue)
            } else {
                RepoNext::Done
            },
            RepoStep::AdoptCatalogue => RepoNext::Done,
        }
    }
}

/// Whether these are the steps taken so far, each after the one before it went well.
pub open spec fn adopting(existing: bool, steps: Seq<RepoStep>) -> bool {
    &&& steps.len() > 0
    &&& steps[0] == first_of_adopting(existing)
    &&& forall|i: int|
        0 < i < steps.len() ==> next_of_adopting(existing, steps[i - 1], true) == RepoNext::Do(
            #[trigger] steps[i],
        )
}

/// How to begin adopting a repository that is new, or exists already.
pub fn begin_adopting(existing: bool) -> (step: RepoStep)
    ensures
        step == first_of_adopting(existing),
        existing ==> !step.writes(),
{
    if existing {
        RepoStep::Try
    } else {
        RepoStep::StoreSecret
    }
}

/// What follows a step of adopting a repository that is new, or exists already.
pub fn adopt_repository(existing: bool, step: RepoStep, ok: bool) -> (next: RepoNext)
    ensures
        next == next_of_adopting(existing, step, ok),
        // The passphrase of an existing repository is stored only once the repository
        // has accepted it.
        next == RepoNext::Do(RepoStep::StoreSecret) ==> ok && step == RepoStep::ReadInfo,
{
    if !ok {
        return RepoNext::Fail;
    }
    match step {
        RepoStep::Try => RepoNext::Do(RepoStep::ReadInfo),
        RepoStep::ReadInfo => RepoNext::Do(RepoStep::StoreSecret),
        RepoStep::StoreSecret => RepoNext::Do(RepoStep::Connect),
        RepoStep::Connect => {
            if existing {
                RepoNext::Do(RepoStep::Save)
            } else {
                RepoNext::Do(RepoStep::Initialise)
            }
        },
        RepoStep::Initialise => RepoNext::Do(RepoStep::Save),
        RepoStep::Save => {
            if existing {
                RepoNext::Do(RepoStep::AdoptCatalogue)
            } else {
                RepoNext::Done
            }
        },
        RepoStep::AdoptCatalogue => RepoNext::Done,
    }
}

/// The passphrase of an existing repository is verified before anything is
/// written: by the time of a step that leaves something behind, the repository has
/// answered; and where it does not answer, the adoption ends there, with nothing
/// stored, nothing saved and the engine that was.
pub proof fn a_passphrase_is_verified_before_anything_is_written(steps: Seq<RepoStep>, at: int)
    requires
        adopting(true, steps),
        0 <= at < steps.len(),
    ensures
        steps[at].writes() ==> exists|i: int| 0 <= i < at && #[trigger] steps[i] == RepoStep::ReadInfo,
        steps[at] == RepoStep::ReadInfo ==> {
            &&& forall|i: int| 0 <= i <= at ==> !(#[trigger] steps[i]).writes()
            &&& next_of_adopting(true, steps[at], false) == RepoNext::Fail
        },
{
    assert(steps.len() > 1 ==> steps[1] == RepoStep::ReadInfo);
    if at > 1 {
        lemma_asked_once(steps, at);
    }
}

/// After its first two steps an import neither tries nor asks again.
proof fn lemma_asked_once(steps: Seq<RepoStep>, at: int)
    requires
        adopting(true, steps),
        1 < at < steps.len(),
    ensures
        steps[at] != RepoStep::Try,
        steps[at] != RepoStep::ReadInfo,
    decreases at,
{
    assert(next_of_adopting(true, steps[at - 1], true) == RepoNext::Do(steps[at]));
    if at == 2 {
        assert(next_of_adopting(true, steps[0], true) == RepoNext::Do(steps[1]));
    } else {
        lemma_asked_once(steps, at - 1);
    }
}

/// An adoption that has succeeded did all there is to do: a new repository has its
/// passphrase stored, is created and is saved as the destination; an existing one has
/// answered first, and is catalogued in the end.
pub proof fn a_finished_adoption_did_all_there_is(existing: bool, steps: Seq<RepoStep>)
    requires
        adopting(existing, steps),
        next_of_adopting(existing, steps.last(), true) is Done,
    ensures
        !existing ==> steps.len() == 4 && steps[0] is StoreSecret && steps[1] is Connect
            && steps[2] is Initialise && steps[3] is Save,
        existing ==> steps.len() == 6 && steps[0] is Try && steps[1] is ReadInfo
            && steps[2] is StoreSecret && steps[3] is Connect && steps[4] is Save
            && steps[5] is AdoptCatalogue,
{
    let n = steps.len();
    assert(n > 1 ==> next_of_adopting(existing, steps[0], true) == RepoNext::Do(steps[1]));
    assert(n > 2 ==> next_of_adopting(existing, steps[1], true) == RepoNext::Do(steps[2]));
    assert(n > 3 ==> next_of_adopting(existing, steps[2], true) == RepoNext::Do(steps[3]));
    assert(n > 4 ==> next_of_adopting(existing, steps[3], true) == RepoNext::Do(steps[4]));
    assert(n > 5 ==> next_of_adopting(existing, steps[4], true) == RepoNext::Do(steps[5]));
    assert(n > 6 ==> next_of_adopting(existing, steps[5], true) == RepoNext::Do(steps[6]));
}

/// The settings name a repository only once it has answered: it was created, or
/// its passphrase was verified.
pub proof fn nothing_is_saved_before_the_repository_answers(
    existing: bool,
    steps: Seq<RepoStep>,
    at: int,
)
    requires
        adopting(existing, steps),
        0 <= at < steps.len(),
        steps[at] == RepoStep::Save,
    ensures
        exists|i: int|
            0 <= i < at && (#[trigger] steps[i] == RepoStep::Initialise || steps[i]
                == RepoStep::ReadInfo),
{
    assert(next_of_adopting(existing, steps[at - 1], true) == RepoNext::Do(steps[at]));
    if existing {
        a_passphrase_is_verified_before_anything_is_written(steps, at);
    } else {
        assert(steps[at - 1] == RepoStep::Initialise);
    }
}

/// The steps of having an engine for the spool.
#[derive(Debug, Clone, Copy, PartialEq, Eq, Structural)]
pub enum SpoolStep {
    /// Create the directory.
    MakeDir,
    /// Build the engine, with the secret of the configured repository.
    Connect,
    /// Look for the repository's own file in the directory: an empty directory is
    /// not a repository yet.
    Look,
    /// Create the repository.
    Initialise,
}

/// How a step towards the spool went.
#[derive(Debug, PartialEq, Eq)]
pub enum SpoolReport {
    /// It went well; of a look, the repository is there.
    Done,
    /// Of a look, the repository is not there.
    Missing,
    /// It failed, in these words.
    Failed(String),
}

/// What follows a step towards the spool.
#[derive(Debug, PartialEq, Eq)]
pub enum SpoolNext {
    Do(SpoolStep),
    /// The engine is ready; remember it.
    Ready,
    /// Answer with this error.
    Fail(DaemonError),
    /// Answer with the engine's error.
    EngineFailed,
}

impl Shared {
    /// How to begin having an engine for the spool, if there is none yet.
    pub fn spool_engine(&self, ready: bool) -> (next: SpoolNext)
        ensures
            if ready {
                next is Ready
            } else if self.config.repository is None {
                &&& next matches SpoolNext::Fail(error)
                &&& error is NotConfigured
                &&& error.words() == "no destination is configured"@
            } else {
                next == SpoolNext::Do(SpoolStep::MakeDir)
            },
    {
        if ready {
            return SpoolNext::Ready;
        }
        if self.config.repository.is_none() {
            return SpoolNext::Fail(
                DaemonError::NotConfigured("no destination is configured".to_owned()),
            );
        }
        SpoolNext::Do(SpoolStep::MakeDir)
    }
}

/// What follows a step of having an engine for the spool.
pub fn spool_next(step: SpoolStep, report: SpoolReport) -> (next: SpoolNext)
    ensures
        match (step, report) {
            (SpoolStep::MakeDir, SpoolReport::Failed(words)) => {
                &&& next matches SpoolNext::Fail(error)
                &&& error is LocalDiskFull
                &&& error.words() == "cannot create the spool: "@ + words@
            },
            (SpoolStep::MakeDir, _) => next == SpoolNext::Do(SpoolStep::Connect),
            (SpoolStep::Connect, SpoolReport::Failed(_)) => next is EngineFailed,
            (SpoolStep::Connect, _) => next == SpoolNext::Do(SpoolStep::Look),
            (SpoolStep::Look, SpoolReport::Done) => next is Ready,
            (SpoolStep::Look, _) => next == SpoolNext::Do(SpoolStep::Initialise),
            (SpoolStep::Initialise, SpoolReport::Failed(_)) => next is EngineFailed,
            (SpoolStep::Initialise, _) => next is Ready,
        },
{
    match step {
        SpoolStep::MakeDir => match report {
            SpoolReport::Failed(words) => SpoolNext::Fail(
                DaemonError::LocalDiskFull(
                    text::joined("cannot create the spool: ", words.as_str()),
                ),
            ),
            _ => SpoolNext::Do(SpoolStep::Connect),
        },
        SpoolStep::Connect => match report {
            SpoolReport::Failed(_) => SpoolNext::EngineFailed,
            _ => SpoolNext::Do(SpoolStep::Look),
        },
        SpoolStep::Look => match report {
            SpoolReport::Done => SpoolNext::Ready,
            _ => SpoolNext::Do(SpoolStep::Initialise),
        },
        SpoolStep::Initialise => match report {
            SpoolReport::Failed(_) => SpoolNext::EngineFailed,
            _ => SpoolNext::Ready,
        },
    }
}

/// The error for a destination directory that could not be made.
pub fn not_created(dest: &str, words: &str) -> (error: DaemonError)
    ensures
        error is RestoreFailed,
        error.words() == dest@ + " could not be created: "@ + words@,
{
    let mut said = text::joined(dest, " could not be created: ");
    said.append(words);
    DaemonError::RestoreFailed(said)
}

/// The error for a stashed file, printed as `printed`, that the stash is not
/// keeping.
pub fn not_kept(printed: &str) -> (error: DaemonError)
    ensures
        error is NotFound,
        error.words() == "the stash is not keeping "@ + printed@,
{
    DaemonError::NotFound(text::joined("the stash is not keeping ", printed))
}

/// The error for a stashed file that the stash is not keeping.
pub fn not_stashed(stashed: &str) -> (error: DaemonError)
    ensures
        error is NotFound,
        error.words() == "the stash is not keeping "@ + quoted(stashed@),
{
    not_kept(quote(stashed).as_str())
}

/// What follows the dating of the local snapshots, from how many were dated: what
/// to say of it, and whether to sweep those whose time is up.
pub fn after_dating(dated: core::result::Result<u64, String>) -> (next: (Option<String>, bool))
    ensures
        match dated {
            Ok(count) => next.1 && (next.0 is Some <==> count > 0),
            Err(_) => !next.1 && next.0 is Some,
        },
        next.0 matches Some(line) ==> line@ == match dated {
            Ok(count) =>
                "the destination has caught up; local snapshots will expire in 30 days"@,
            Err(words) => "could not date the local snapshots: "@ + words@,
        },
{
    match dated {
        Ok(count) => {
            if count == 0 {
                (None, true)
            } else {
                (
                    Some(
                        "the destination has caught up; local snapshots will expire in 30 days".to_owned(),
                    ),
                    true,
                )
            }
        },
        Err(words) => (
            Some(text::joined("could not date the local snapshots: ", words.as_str())),
            false,
        ),
    }
}

/// What a catalogued path is.
#[derive(Debug, Clone, Copy, PartialEq, Eq, Structural)]
pub enum Kind {
    File,
    Dir,
    Symlink,
    Other,
}

/// The wire name of a kind.
pub fn kind_name(kind: Kind) -> (name: &'static str)
    ensures
        name@ == kind.name(),
        kind is File ==> name@ == "file"@,
        kind is Dir ==> name@ == "dir"@,
        kind is Symlink ==> name@ == "symlink"@,
        kind is Other ==> name@ == "other"@,
{
    match kind {
        Kind::File => "file",
        Kind::Dir => "dir",
        Kind::Symlink => "symlink",
        Kind::Other => "other",
    }
}

impl Kind {
    /// The wire name of a kind.
    pub open spec fn name(self) -> Seq<char> {
        match self {
            Kind::File => "file"@,
            Kind::Dir => "dir"@,
            Kind::Symlink => "symlink"@,
            Kind::Other => "other"@,
        }
    }
}

/// A file that the catalogue found.
#[derive(Debug, PartialEq, Eq)]
pub struct Hit {
    pub path: String,
    pub name: String,
    pub kind: Kind,
    pub first_seq: i64,
    pub last_seq: i64,
    pub first_ts: i64,
    pub last_ts: i64,
    pub version_count: i64,
    /// How large it is, as the catalogue has it.
    pub size: i64,
}

/// A file that was found, as the client reads it.
#[derive(Debug, PartialEq, Eq)]
pub struct SearchResult {
    pub path: String,
    pub name: String,
    pub kind: String,
    pub first_seq: i64,
    pub last_seq: i64,
    pub first_ts: i64,
    pub last_ts: i64,
    pub versions: u32,
    pub size: i64,
    /// Whether it was looked for on this computer and is not there.
    pub gone_from_disk: bool,
}

/// The query that is searched for: what was asked, without white space around it.
pub open spec fn wanted(query: Seq<char>) -> Seq<char> {
    without_white_end(without_white_start(query))
}

/// Check a query. One of a single character is refused and not answered at great
/// expense, and white space does not pad it out.
pub fn check_query(query: &str) -> (result: Result<String>)
    ensures
        result is Ok <==> wanted(query@).len() >= 2,
        result matches Ok(q) ==> q@ == wanted(query@),
        result matches Err(error) ==> {
            &&& error is InvalidArgument
            &&& error.words() == "a search needs at least two characters"@
        },
{
    let trimmed = text::trim_white(query);
    if trimmed.as_str().unicode_len() < 2 {
        return Err(
            DaemonError::InvalidArgument("a search needs at least two characters".to_owned()),
        );
    }
    Ok(trimmed)
}

/// Whether `shown` is how the client reads a hit.
pub open spec fn reads_as(shown: SearchResult, hit: Hit, gone: bool) -> bool {
    &&& shown.path@ == hit.path@
    &&& shown.name@ == hit.name@
    &&& shown.kind@ == hit.kind.name()
    &&& shown.first_seq == hit.first_seq
    &&& shown.last_seq == hit.last_seq
    &&& shown.first_ts == hit.first_ts
    &&& shown.last_ts == hit.last_ts
    &&& shown.versions == if hit.version_count < 0 {
        0
    } else {
        hit.version_count as u32
    }
    &&& shown.size == hit.size
    &&& shown.gone_from_disk == gone
}

/// The places of the hits that are gone from this computer, or of those that are
/// not, among the first `n`, in their order.
pub open spec fn places(answers: Seq<OnDisk>, gone: bool, n: nat) -> Seq<int>
    decreases n,
{
    if n == 0 {
        Seq::empty()
    } else {
        let before = places(answers, gone, (n - 1) as nat);
        if (answers[n - 1] == OnDisk::Absent) == gone {
            before.push(n - 1)
        } else {
            before
        }
    }
}

/// The order in which hits are shown: what is gone from this computer comes first.
pub open spec fn ranking(answers: Seq<OnDisk>) -> Seq<int> {
    places(answers, true, answers.len()) + places(answers, false, answers.len())
}

/// A place is that of a hit, and there are no more places than hits.
proof fn lemma_places(answers: Seq<OnDisk>, gone: bool, n: nat)
    requires
        n <= answers.len(),
    ensures
        places(answers, gone, n).len() <= n,
        places(answers, true, n).len() + places(answers, false, n).len() == n,
        forall|k: int|
            0 <= k < places(answers, gone, n).len() ==> {
                &&& 0 <= #[trigger] places(answers, gone, n)[k] < n
                &&& (answers[places(answers, gone, n)[k]] == OnDisk::Absent) == gone
            },
    decreases n,
{
    if n > 0 {
        lemma_places(answers, gone, (n - 1) as nat);
        lemma_places(answers, !gone, (n - 1) as nat);
    }
}

/// A hit as the client reads it.
fn read(hit: &Hit, gone: bool) -> (shown: SearchResult)
    ensures
        reads_as(shown, *hit, gone),
{
    SearchResult {
        path: hit.path.clone(),
        name: hit.name.clone(),
        kind: kind_name(hit.kind).to_owned(),
        first_seq: hit.first_seq,
        last_seq: hit.last_seq,
        first_ts: hit.first_ts,
        last_ts: hit.last_ts,
        versions: if hit.version_count < 0 {
            0
        } else {
            hit.version_count as u32
        },
        size: hit.size,
        gone_from_disk: gone,
    }
}

/// The most matches a search hands over.
pub const SEARCH_LIMIT: usize = 500;

/// The hits to show, given whether each is on this computer: those that are gone
/// first, and no more than [`SEARCH_LIMIT`].
pub fn search_files(hits: &Vec<Hit>, answers: &Vec<OnDisk>) -> (shown: Vec<SearchResult>)
    requires
        hits@.len() == answers@.len(),
    ensures
        shown@.len() == if hits@.len() <= SEARCH_LIMIT {
            hits@.len() as int
        } else {
            SEARCH_LIMIT as int
        },
        forall|k: int|
            0 <= k < shown@.len() ==> reads_as(
                #[trigger] shown@[k],
                hits@[ranking(answers@)[k]],
                answers@[ranking(answers@)[k]] == OnDisk::Absent,
            ),
        shown@.len() <= 500,
        forall|k: int|
            0 <= k < shown@.len() ==> {
                let at = ranking(answers@)[k];
                &&& (#[trigger] shown@[k]).path@ == hits@[at].path@
                &&& shown@[k].name@ == hits@[at].name@
                &&& shown@[k].first_seq == hits@[at].first_seq
                &&& shown@[k].last_seq == hits@[at].last_seq
                &&& shown@[k].first_ts == hits@[at].first_ts
                &&& shown@[k].last_ts == hits@[at].last_ts
                &&& shown@[k].size == hits@[at].size
                &&& 0 <= hits@[at].version_count <= u32::MAX ==> shown@[k].versions
                    == hits@[at].version_count
                &&& shown@[k].gone_from_disk <==> answers@[at] is Absent
            },
{
    let n: usize = hits.len();
    let mut shown: Vec<SearchResult> = Vec::new();
    proof {
        lemma_places(answers@, true, n as nat);
        lemma_places(answers@, false, n as nat);
    }
    let ghost order = ranking(answers@);
    let ghost first = places(answers@, true, n as nat);
    let ghost second = places(answers@, false, n as nat);
    proof {
        lemma_front(answers@, true, 0, n as nat);
        lemma_front(answers@, false, 0, n as nat);
    }
    let mut i: usize = 0;
    while i < n && shown.len() < SEARCH_LIMIT
        invariant
            i <= n == hits@.len() == answers@.len(),
            shown@.len() <= SEARCH_LIMIT,
            first == places(answers@, true, n as nat),
            places(answers@, true, i as nat).len() == shown@.len(),
            is_front(places(answers@, true, i as nat), first),
            forall|k: int|
                0 <= k < shown@.len() ==> reads_as(
                    #[trigger] shown@[k],
                    hits@[first[k]],
                    true,
                ),
        decreases n - i,
    {
        let ghost before = shown@;
        proof {
            lemma_front(answers@, true, (i + 1) as nat, n as nat);
        }
        if answers[i] == OnDisk::Absent {
            shown.push(read(&hits[i], true));
            proof {
                let part = places(answers@, true, (i + 1) as nat);
                assert(first.take(part.len() as int)[before.len() as int] == i);
            }
        }
        i += 1;
    }
    proof {
        lemma_places(answers@, true, n as nat);
        assert forall|k: int| 0 <= k < shown@.len() implies reads_as(
            #[trigger] shown@[k],
            hits@[order[k]],
            answers@[order[k]] == OnDisk::Absent,
        ) by {
            assert(order[k] == first[k]);
            assert(answers@[first[k]] == OnDisk::Absent);
        }
    }
    if i < n {
        assert(shown@.len() == SEARCH_LIMIT);
        assert(first.len() + second.len() == n);
        return shown;
    }
    assert(shown@.len() == first.len());
    let ghost gone = first.len() as int;
    let mut j: usize = 0;
    while j < n && shown.len() < SEARCH_LIMIT
        invariant
            j <= n == hits@.len() == answers@.len(),
            shown@.len() <= SEARCH_LIMIT,
            second == places(answers@, false, n as nat),
            first == places(answers@, true, n as nat),
            order == first + second,
            gone == first.len(),
            first.len() + second.len() == n,
            places(answers@, false, j as nat).len() == shown@.len() - gone,
            is_front(places(answers@, false, j as nat), second),
            forall|k: int|
                0 <= k < second.len() ==> !(answers@[#[trigger] second[k]] == OnDisk::Absent),
            forall|k: int|
                0 <= k < shown@.len() ==> reads_as(
                    #[trigger] shown@[k],
                    hits@[order[k]],
                    answers@[order[k]] == OnDisk::Absent,
                ),
        decreases n - j,
    {
        let ghost before = shown@;
        proof {
            lemma_front(answers@, false, (j + 1) as nat, n as nat);
        }
        if answers[j] != OnDisk::Absent {
            shown.push(read(&hits[j], false));
            proof {
                let k = before.len() as int;
                let part = places(answers@, false, (j + 1) as nat);
                assert(second.take(part.len() as int)[k - gone] == j);
                assert(order[k] == j);
            }
        }
        j += 1;
    }
    shown
}

/// Whether a row of places is the front of another.
pub open spec fn is_front(part: Seq<int>, whole: Seq<int>) -> bool {
    part.len() <= whole.len() && whole.take(part.len() as int) == part
}

/// The places among fewer hits are the front of those among more.
proof fn lemma_front(answers: Seq<OnDisk>, gone: bool, n: nat, m: nat)
    requires
        n <= m <= answers.len(),
    ensures
        is_front(places(answers, gone, n), places(answers, gone, m)),
    decreases m,
{
    if n == m {
        let all = places(answers, gone, m);
        assert(all.take(all.len() as int) =~= all);
    } else {
        lemma_front(answers, gone, n, (m - 1) as nat);
        let (part, all) = (places(answers, gone, (m - 1) as nat), places(answers, gone, m));
        let small = places(answers, gone, n);
        assert(all.take(small.len() as int) =~= part.take(small.len() as int));
    }
}

/// A hit is shown with its own facts: where it is, what it is called and what it is,
/// the snapshots it is in from the first to the last, how many versions there are and
/// how large it is. So hits that differ in any of these are shown as different.
pub proof fn a_hit_is_shown_with_its_own_facts(
    shown: SearchResult,
    hit: Hit,
    gone: bool,
    other: SearchResult,
    another: Hit,
    away: bool,
)
    requires
        reads_as(shown, hit, gone),
        reads_as(other, another, away),
    ensures
        shown.path@ == hit.path@,
        shown.name@ == hit.name@,
        hit.path@ != another.path@ ==> shown.path@ != other.path@,
        hit.name@ != another.name@ ==> shown.name@ != other.name@,
        hit.kind != another.kind ==> shown.kind@ != other.kind@,
        hit.first_seq != another.first_seq ==> shown.first_seq != other.first_seq,
        hit.last_seq != another.last_seq ==> shown.last_seq != other.last_seq,
        hit.first_ts != another.first_ts ==> shown.first_ts != other.first_ts,
        hit.last_ts != another.last_ts ==> shown.last_ts != other.last_ts,
        hit.size != another.size ==> shown.size != other.size,
        0 <= hit.version_count < another.version_count <= u32::MAX ==> shown.versions
            < other.versions,
        gone != away ==> shown.gone_from_disk != other.gone_from_disk,
        hit.first_seq <= hit.last_seq ==> shown.first_seq <= shown.last_seq,
        hit.first_ts <= hit.last_ts ==> shown.first_ts <= shown.last_ts,
{
    reveal_strlit("file");
    reveal_strlit("dir");
    reveal_strlit("symlink");
    reveal_strlit("other");
    assert("file"@[0] == 'f');
    assert("dir"@[0] == 'd');
    assert("symlink"@[0] == 's');
    assert("other"@[0] == 'o');
}

/// Every hit has one place in the order in which hits are shown, and among those that
/// are gone from this computer, as among those that are not, the catalogue's own order
/// is kept.
pub proof fn every_hit_is_ranked_once(answers: Seq<OnDisk>)
    ensures
        ranking(answers).len() == answers.len(),
        ranking(answers).no_duplicates(),
        forall|k: int|
            0 <= k < answers.len() ==> 0 <= #[trigger] ranking(answers)[k] < answers.len(),
        forall|i: int, j: int|
            0 <= i < j < answers.len() && (answers[#[trigger] ranking(answers)[i]] is Absent
                <==> answers[#[trigger] ranking(answers)[j]] is Absent) ==> ranking(answers)[i]
                < ranking(answers)[j],
{
    let n = answers.len();
    lemma_places(answers, true, n);
    lemma_places(answers, false, n);
    lemma_places_ascend(answers, true, n);
    lemma_places_ascend(answers, false, n);
    let (first, second) = (places(answers, true, n), places(answers, false, n));
    let all = ranking(answers);
    assert forall|k: int| 0 <= k < n implies {
        &&& k < first.len() ==> #[trigger] all[k] == first[k]
        &&& k >= first.len() ==> all[k] == second[k - first.len()]
        &&& 0 <= all[k] < n
        &&& (answers[all[k]] is Absent <==> k < first.len())
    } by {
        if k < first.len() {
            assert(0 <= first[k] < n);
        } else {
            assert(0 <= second[k - first.len()] < n);
        }
    }
    assert forall|i: int, j: int|
        0 <= i < j < n && (answers[#[trigger] all[i]] is Absent <==> answers[#[trigger] all[j]]
            is Absent) implies all[i] < all[j] by {
        if j < first.len() {
            assert(first[i] < first[j]);
        } else {
            assert(second[i - first.len()] < second[j - first.len()]);
        }
    }
    assert forall|i: int, j: int| 0 <= i < n && 0 <= j < n && i != j implies all[i] != all[j] by {
        if i < j {
            assert(answers[all[i]] is Absent <==> i < first.len());
            assert(answers[all[j]] is Absent <==> j < first.len());
        } else {
            assert(answers[all[i]] is Absent <==> i < first.len());
            assert(answers[all[j]] is Absent <==> j < first.len());
        }
    }
}

/// Places come in their order.
proof fn lemma_places_ascend(answers: Seq<OnDisk>, gone: bool, n: nat)
    requires
        n <= answers.len(),
    ensures
        forall|i: int, j: int|
            0 <= i < j < places(answers, gone, n).len() ==> #[trigger] places(answers, gone, n)[i]
                < #[trigger] places(answers, gone, n)[j],
    decreases n,
{
    if n > 0 {
        lemma_places_ascend(answers, gone, (n - 1) as nat);
        lemma_places(answers, gone, (n - 1) as nat);
    }
}

/// A search is for what was asked: the query without the white space around it, as it
/// stands and not changed otherwise.
pub proof fn a_search_is_for_what_was_asked(query: Seq<char>) -> (ends: (int, int))
    ensures
        0 <= ends.0 <= ends.1 <= query.len(),
        wanted(query) == query.subrange(ends.0, ends.1),
        forall|i: int| 0 <= i < ends.0 || ends.1 <= i < query.len() ==> text::white(#[trigger] query[i]),
        ends.0 < ends.1 ==> !text::white(query[ends.0]) && !text::white(query[ends.1 - 1]),
{
    text::trimming_takes_only_white_space(query)
}

/// What is gone from this computer is shown before what is not.
pub proof fn what_is_gone_comes_first(answers: Seq<OnDisk>, i: int, j: int)
    requires
        0 <= i < j < answers.len(),
        answers[ranking(answers)[j]] == OnDisk::Absent,
    ensures
        answers[ranking(answers)[i]] == OnDisk::Absent,
{
    lemma_places(answers, true, answers.len());
    lemma_places(answers, false, answers.len());
    let (first, second) = (
        places(answers, true, answers.len()),
        places(answers, false, answers.len()),
    );
    if j >= first.len() {
        assert(ranking(answers)[j] == second[j - first.len()]);
    } else {
        assert(ranking(answers)[i] == first[i]);
    }
}

/// Restores are staged apart: no two jobs share a directory, and each is inside the
/// staging directory under the job's number.
pub proof fn restores_are_staged_apart(shared: Shared, a: JobId, b: JobId)
    ensures
        shared.staging_for(a) == shared.staging_for(b) ==> a == b,
        shared.staging_for(a) == if shared.layout.staging_dir@.len() == 0
            || shared.layout.staging_dir@.last() == '/' {
            shared.layout.staging_dir@ + decimal(a as nat)
        } else {
            shared.layout.staging_dir@ + seq!['/'] + decimal(a as nat)
        },
{
    text::lemma_decimal_reads_back(a as nat);
    text::lemma_decimal_reads_back(b as nat);
    let (x, y) = (decimal(a as nat), decimal(b as nat));
    assert('0' <= x[0] <= '9' && '0' <= y[0] <= '9');
    let dir = shared.layout.staging_dir@;
    if shared.staging_for(a) == shared.staging_for(b) {
        let n = if dir.len() == 0 || dir.last() == '/' {
            dir.len() as int
        } else {
            dir.len() as int + 1
        };
        assert(shared.staging_for(a).skip(n) =~= x);
        assert(shared.staging_for(b).skip(n) =~= y);
    }
}

/// The answer that is complained of is the first that is none of the three words.
pub proof fn an_unknown_answer_is_the_first_one(answers: Seq<(String, String)>, k: int)
    requires
        0 <= k < answers.len(),
        answers[k].1@ != "replace"@,
        answers[k].1@ != "keep-both"@,
        answers[k].1@ != "skip"@,
        forall|i: int|
            0 <= i < k ==> (#[trigger] answers[i]).1@ == "replace"@ || answers[i].1@ == "keep-both"@
                || answers[i].1@ == "skip"@,
    ensures
        first_unknown(answers) == k,
{
    lemma_decisions_differ();
    lemma_first_unknown(answers, k);
}

/// What a refused request is answered: a job under which nothing is prepared is no such
/// job, and a word that is no decision, or a request without a path, is an argument
/// that is not valid; each with its own words.
pub proof fn a_refused_request_is_answered(
    error: DaemonError,
    job: JobId,
    printed: Seq<char>,
    path: Seq<char>,
)
    ensures
        not_prepared(error, job) ==> error is NoSuchJob && error.words()
            == "no restore is prepared under job "@ + decimal(job as nat),
        is_unknown_blanket(error, printed) ==> error is InvalidArgument && error.words()
            == "unknown decision "@ + printed + "; expected one of replace, keep-both, skip"@,
        is_unknown_answer(error, printed, path) ==> error is InvalidArgument && error.words()
            == "unknown decision "@ + printed + " for "@ + path,
        needs_a_path(error) ==> error is InvalidArgument && error.words()
            == "restore needs at least one path"@,
        is_unknown_policy(error, printed) ==> error is InvalidArgument && error.words()
            == "unknown restore policy "@ + printed
            + "; expected one of ask, keep-both, replace, skip-identical"@,
{
}

} // verus!
