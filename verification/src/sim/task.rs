//! Tasks: the atomic, verifiable unit of work a citizen does.
//!
//! A task is **a closed verb list plus a declared target**. Two properties make it
//! auditable rather than aspirational: its material is planned before the work starts,
//! and completion is a defined check: the counter of work left only goes down while
//! somebody is on the site.
use vstd::prelude::*;

use crate::exact::fits_i64;
use crate::sim::{kind_name, lineage_fits, lineage_sum, BuildingKind, MaterialLineage};
use crate::strings::{decimal, decimal_nat, glue, same, show_i64, show_u32};

verus! {

/// What a task asks for. Closed: a task whose verb is not on this list is not a task.
#[derive(Clone, Copy, Debug, PartialEq, Eq, Structural)]
pub enum Verb {
    /// Raise a structure on a site, out of material the world gives up.
    Build,
}

/// The name a verb is declared under.
pub open spec fn verb_name(verb: Verb) -> Seq<char> {
    match verb {
        Verb::Build => "build"@,
    }
}

/// The verb a name stands for.
pub open spec fn verb_named(name: Seq<char>) -> Option<Verb> {
    if name == verb_name(Verb::Build) {
        Some(Verb::Build)
    } else {
        None
    }
}

/// Every verb answers to its own name: the list quotes itself.
pub proof fn verb_names_round_trip(verb: Verb)
    ensures
        verb_named(verb_name(verb)) == Some(verb),
{
}

impl Verb {
    /// The declared list, quoted in refusals so the vocabulary is never implied.
    pub const ALL: [Verb; 1] = [Verb::Build];

    pub fn name(self) -> (r: &'static str)
        ensures
            r@ == verb_name(self),
    {
        match self {
            Verb::Build => "build",
        }
    }

    /// The verb for a name, or `None`: the refusal case, not a default.
    pub fn named(name: &str) -> (r: Option<Verb>)
        ensures
            r == verb_named(name@),
    {
        let all = Verb::ALL;
        let mut i: usize = 0;
        while i < 1
            invariant
                i <= 1,
                all@ == seq![Verb::Build],
                forall|k: int| 0 <= k < i ==> verb_name(#[trigger] all@[k]) != name@,
            decreases 1 - i,
        {
            let verb = all[i];
            if same(verb.name(), name) {
                return Some(verb);
            }
            i += 1;
        }
        None
    }

    /// Whether this verb builds a structure, which is what makes `site` a build site.
    pub fn builds(self) -> (r: bool)
        ensures
            r == (self is Build),
    {
        matches!(self, Verb::Build)
    }
}

/// What a task's listing line says of who holds it.
pub open spec fn claimed_text(claimed_by: Option<u32>) -> Seq<char> {
    match claimed_by {
        Some(who) => ", claimed by citizen "@ + decimal_nat(who as nat),
        None => ""@,
    }
}

/// One unit of work: what is wanted, where, by whom, and how much is left.
///
/// `work_remaining` is in **labour-ticks**, decremented by the worker who is actually
/// standing on the site.
#[derive(Clone, Debug, PartialEq, Eq)]
pub struct Task {
    pub id: u32,
    pub verb: Verb,
    /// What is being raised, read by `Verb::Build` and ignored by every other verb.
    pub kind: BuildingKind,
    /// The tile the work happens on.
    pub site: u32,
    /// The material family the world must supply, and how much of it, in grams.
    pub family: String,
    pub requires_g: i64,
    /// The planned draw, held until the work completes.
    pub material: Vec<MaterialLineage>,
    pub work_remaining: i64,
    /// The citizen doing the work, by id. `None` means the task is open.
    pub claimed_by: Option<u32>,
    pub opened_tick: u64,
}

/// What a person reads of a task in a listing.
pub open spec fn task_text(task: Task) -> Seq<char> {
    verb_name(task.verb) + " "@ + kind_name(task.kind) + " at tile "@ + decimal_nat(task.site as nat)
        + " ("@ + decimal(task.requires_g as int) + " g of "@ + task.family@ + ", "@ + decimal(
        task.work_remaining as int,
    ) + " work left"@ + claimed_text(task.claimed_by) + ")"@
}

impl Task {
    /// Whether anybody has taken this work.
    pub fn is_claimed(&self) -> (r: bool)
        ensures
            r == self.claimed_by is Some,
    {
        self.claimed_by.is_some()
    }

    /// Whether the work is done: the counter of work left has reached zero.
    pub fn is_done(&self) -> (r: bool)
        ensures
            r == (self.work_remaining <= 0),
    {
        self.work_remaining <= 0
    }

    /// The mass the task's plan accounts for, in grams.
    pub fn lineage_total(&self) -> (r: i64)
        requires
            lineage_fits(self.material@),
        ensures
            r == lineage_sum(self.material@),
    {
        let mut total: i64 = 0;
        let mut i: usize = 0;
        while i < self.material.len()
            invariant
                i <= self.material@.len(),
                lineage_fits(self.material@),
                total == lineage_sum(self.material@.take(i as int)),
            decreases self.material@.len() - i,
        {
            proof {
                let next = self.material@.take(i as int + 1);
                assert(next.drop_last() =~= self.material@.take(i as int));
                assert(fits_i64(lineage_sum(next)));
            }
            total = total + self.material[i].grams;
            i += 1;
        }
        proof {
            assert(self.material@.take(self.material@.len() as int) =~= self.material@);
        }
        total
    }

    /// What a person reads in a listing.
    pub fn describe(&self) -> (r: String)
        ensures
            r@ == task_text(*self),
    {
        let line = glue(glue(String::from_str(self.verb.name()), " "), self.kind.name());
        let line = glue(glue(line, " at tile "), show_u32(self.site).as_str());
        let line = glue(glue(glue(line, " ("), show_i64(self.requires_g).as_str()), " g of ");
        let line = glue(glue(glue(line, self.family.as_str()), ", "), show_i64(self.work_remaining).as_str());
        let line = glue(line, " work left");
        let line = match self.claimed_by {
            Some(who) => glue(glue(line, ", claimed by citizen "), show_u32(who).as_str()),
            None => glue(line, ""),
        };
        glue(line, ")")
    }
}

} // verus!
