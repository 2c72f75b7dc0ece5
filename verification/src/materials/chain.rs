//! Reducing a wanted good to what the world must give up for it.
//!
//! The process table says what each step costs. This module answers the question a city
//! actually asks: **to get one hatchet, what has to come out of the ground, and in what
//! order does the work happen?** It is pure: no world, no clock, no citizen.
//!
//! * **A leaf is the world.** Reduction stops at a substance the world already holds:
//!   either a process with no inputs (*a gather*) or a substance whose declared source is
//!   `mined` or `salvaged` (*an extraction*). A substance with no route to either is
//!   **refused by name**.
//! * **Integer arithmetic, and rounding is declared rather than hidden.** A process runs a
//!   whole number of times; what a last run makes beyond the want is **surplus**.
//! * **Dependencies come first.** The steps are in the order the work has to happen in.
//! * **A cycle is refused, not survived**, and the refusal names the cycle.
//!
//! What it does not decide: which recipe, when a substance has more than one. The first
//! declared producer wins, and that is a named policy gap rather than a decision.
use vstd::prelude::*;

use crate::exact::fits_i64;
use crate::lookup::{first_of, first_upto, lemma_first_upto};
use crate::materials::generated::{
    processes, spec_processes, spec_substances, substances_row, Process, Rational, Substance,
    SUBSTANCES_LEN,
};
use crate::materials::schema::{
    first_stays, quantity_grams, side_grams, side_total, spec_quantity_grams, spec_substance,
    spec_unit_name, substance, substance_named, Unit,
};
use crate::lookup::{each_of, lemma_each_of_step, lemma_take_all};
use crate::strings::{
    before, decimal, decimal_nat, joined, lemma_text_order, same, show_i64, show_usize, text_lt,
    views,
};

verus! {

/// How a plan's leaf reaches the world.
#[derive(Clone, Copy, Debug, PartialEq, Eq, PartialOrd, Ord, Structural)]
pub enum Route {
    /// A process with no inputs: a person takes it from a surface the world grows.
    Gather,
    /// A substance the ground holds: the deposit take the world performs.
    Extract,
}

/// The name a route reads as.
pub open spec fn spec_route_name(route: Route) -> Seq<char> {
    match route {
        Route::Gather => "gather"@,
        Route::Extract => "extract"@,
    }
}

impl Route {
    pub fn name(self) -> (r: &'static str)
        ensures
            r@ == spec_route_name(self),
    {
        match self {
            Route::Gather => "gather",
            Route::Extract => "extract",
        }
    }
}

/// One leaf of a plan: a substance, how much of it, and how it comes out of the world.
#[derive(Clone, Debug, PartialEq, Eq)]
pub struct Leaf {
    pub substance: &'static str,
    pub grams: i64,
    pub route: Route,
    /// The gather process that takes it, when there is one.
    pub process: Option<&'static str>,
}

/// One step of work, in the order it has to happen.
#[derive(Clone, Debug, PartialEq, Eq)]
pub struct Step {
    pub process: &'static str,
    /// How many times the process runs. A whole number, always.
    pub runs: i64,
    /// Grams the step's inputs come to, in total.
    pub input_g: i64,
    /// Grams the step's outputs come to, in total.
    pub output_g: i64,
}

/// A plan: what the world gives up, what the work is, and what is left over.
#[derive(Clone, Debug, Default, PartialEq, Eq)]
pub struct Plan {
    /// What was asked for, in grams, by substance.
    pub wanted: Vec<(&'static str, i64)>,
    /// The world's own contributions, gathered or extracted.
    pub leaves: Vec<Leaf>,
    /// The work, dependencies first.
    pub steps: Vec<Step>,
    /// What a step produces beyond the target, which therefore stays in stock.
    pub surplus: Vec<(&'static str, i64)>,
    /// Everything a step produces that is not its target: offcuts, flakes, dust.
    pub by_products: Vec<(&'static str, i64)>,
}

/// A plan's contents, as sequences.
#[verifier::ext_equal]
pub struct PlanModel {
    pub wanted: Seq<(&'static str, i64)>,
    pub leaves: Seq<Leaf>,
    pub steps: Seq<Step>,
    pub surplus: Seq<(&'static str, i64)>,
    pub by_products: Seq<(&'static str, i64)>,
}

impl View for Plan {
    type V = PlanModel;

    open spec fn view(&self) -> PlanModel {
        PlanModel {
            wanted: self.wanted@,
            leaves: self.leaves@,
            steps: self.steps@,
            surplus: self.surplus@,
            by_products: self.by_products@,
        }
    }
}

/// What a plan is asked for: the declared substance, under its declared name, and the
/// grams wanted of it; nothing where the name is not declared.
pub open spec fn asked_for(substance: Seq<char>, grams: i64) -> Seq<(&'static str, i64)> {
    match spec_substance(substance) {
        Some(entry) => seq![(entry.name, grams)],
        None => Seq::empty(),
    }
}

/// A plan that so far says only what it is asked for.
pub open spec fn asked(substance: Seq<char>, grams: i64) -> PlanModel {
    PlanModel { wanted: asked_for(substance, grams), ..empty_plan() }
}

/// A plan with nothing in it.
pub open spec fn empty_plan() -> PlanModel {
    PlanModel {
        wanted: Seq::empty(),
        leaves: Seq::empty(),
        steps: Seq::empty(),
        surplus: Seq::empty(),
        by_products: Seq::empty(),
    }
}

/// The grams of the first `n` leaves.
pub open spec fn leaf_sum(leaves: Seq<Leaf>, n: int) -> int
    decreases n,
{
    if n <= 0 {
        0
    } else {
        leaf_sum(leaves, n - 1) + leaves[n - 1].grams
    }
}

/// Whether every running total of the leaves fits in 64 bits.
pub open spec fn leaf_sums_fit(leaves: Seq<Leaf>) -> bool {
    forall|n: int| 0 <= n <= leaves.len() ==> fits_i64(#[trigger] leaf_sum(leaves, n))
}

/// One wanted line as a person reads it.
pub open spec fn wanted_text(line: (&'static str, i64)) -> Seq<char> {
    decimal(line.1 as int) + " g "@ + line.0@
}

/// One leaf as a person reads it.
pub open spec fn leaf_text(leaf: Leaf) -> Seq<char> {
    "  "@ + spec_route_name(leaf.route) + " "@ + decimal(leaf.grams as int) + " g of "@
        + leaf.substance@
}

/// One step as a person reads it.
pub open spec fn step_text(step: Step) -> Seq<char> {
    "  run "@ + step.process@ + " ×"@ + decimal(step.runs as int) + " ("@ + decimal(
        step.input_g as int,
    ) + " g in, "@ + decimal(step.output_g as int) + " g out)"@
}

/// The plan as a person reads it: a heading, then each leaf, then each step.
pub open spec fn plan_text(plan: PlanModel) -> Seq<char> {
    joined(
        seq![
            "plan: "@ + joined(plan.wanted.map_values(|w: (&'static str, i64)| wanted_text(w)), " + "@)
                + " from "@ + decimal(leaf_sum(plan.leaves, plan.leaves.len() as int))
                + " g of the world, "@ + decimal_nat(plan.steps.len()) + " step(s)"@,
        ] + plan.leaves.map_values(|l: Leaf| leaf_text(l)) + plan.steps.map_values(
            |s: Step| step_text(s),
        ),
        "\n"@,
    )
}

impl Plan {
    /// Every gram the world has to give up, in total.
    pub fn drawn_g(&self) -> (r: i64)
        requires
            leaf_sums_fit(self.leaves@),
        ensures
            r == leaf_sum(self.leaves@, self.leaves@.len() as int),
    {
        let mut total: i64 = 0;
        let mut i: usize = 0;
        while i < self.leaves.len()
            invariant
                i <= self.leaves@.len(),
                total == leaf_sum(self.leaves@, i as int),
                leaf_sums_fit(self.leaves@),
            decreases self.leaves@.len() - i,
        {
            assert(fits_i64(leaf_sum(self.leaves@, i + 1)));
            total = total + self.leaves[i].grams;
            i += 1;
        }
        total
    }

    /// Whether the plan needs no work at all: the world already holds the substance.
    pub fn is_bare_leaf(&self) -> (r: bool)
        ensures
            r == (self.steps@.len() == 0),
    {
        self.steps.len() == 0
    }

    /// The plan as a person reads it.
    pub fn describe(&self) -> (r: String)
        requires
            leaf_sums_fit(self.leaves@),
        ensures
            r@ == plan_text(self@),
    {
        let mut wanted: Vec<String> = Vec::new();
        let mut i: usize = 0;
        while i < self.wanted.len()
            invariant
                i <= self.wanted@.len(),
                views(wanted@) =~= self.wanted@.take(i as int).map_values(
                    |w: (&'static str, i64)| wanted_text(w),
                ),
            decreases self.wanted@.len() - i,
        {
            let (name, grams) = self.wanted[i];
            let mut line = show_i64(grams);
            line.append(" g ");
            line.append(name);
            assert(line@ == wanted_text(self.wanted@[i as int]));
            let ghost before = wanted@;
            wanted.push(line);
            assert(views(wanted@) =~= views(before).push(wanted_text(self.wanted@[i as int])));
            i += 1;
            assert(views(wanted@) =~= self.wanted@.take(i as int).map_values(
                |w: (&'static str, i64)| wanted_text(w),
            ));
        }
        assert(self.wanted@.take(self.wanted@.len() as int) =~= self.wanted@);
        let mut heading = String::from_str("plan: ");
        let wanted_line = crate::strings::join(&wanted, " + ");
        heading.append(wanted_line.as_str());
        heading.append(" from ");
        let drawn = show_i64(self.drawn_g());
        heading.append(drawn.as_str());
        heading.append(" g of the world, ");
        let count = show_usize(self.steps.len());
        heading.append(count.as_str());
        heading.append(" step(s)");

        let mut lines: Vec<String> = Vec::new();
        let ghost heading_text = heading@;
        lines.push(heading);
        assert(views(lines@) =~= seq![heading_text]);
        let ghost head = views(lines@);
        let mut j: usize = 0;
        while j < self.leaves.len()
            invariant
                j <= self.leaves@.len(),
                views(lines@) =~= head + self.leaves@.take(j as int).map_values(
                    |l: Leaf| leaf_text(l),
                ),
            decreases self.leaves@.len() - j,
        {
            let leaf = &self.leaves[j];
            let mut line = String::from_str("  ");
            line.append(leaf.route.name());
            line.append(" ");
            let grams = show_i64(leaf.grams);
            line.append(grams.as_str());
            line.append(" g of ");
            line.append(leaf.substance);
            assert(line@ == leaf_text(self.leaves@[j as int]));
            let ghost before = lines@;
            lines.push(line);
            assert(views(lines@) =~= views(before).push(leaf_text(self.leaves@[j as int])));
            j += 1;
            assert(views(lines@) =~= head + self.leaves@.take(j as int).map_values(
                |l: Leaf| leaf_text(l),
            ));
        }
        assert(self.leaves@.take(self.leaves@.len() as int) =~= self.leaves@);
        let ghost with_leaves = views(lines@);
        let mut k: usize = 0;
        while k < self.steps.len()
            invariant
                k <= self.steps@.len(),
                views(lines@) =~= with_leaves + self.steps@.take(k as int).map_values(
                    |s: Step| step_text(s),
                ),
            decreases self.steps@.len() - k,
        {
            let step = &self.steps[k];
            let mut line = String::from_str("  run ");
            line.append(step.process);
            line.append(" ×");
            let runs = show_i64(step.runs);
            line.append(runs.as_str());
            line.append(" (");
            let input = show_i64(step.input_g);
            line.append(input.as_str());
            line.append(" g in, ");
            let output = show_i64(step.output_g);
            line.append(output.as_str());
            line.append(" g out)");
            assert(line@ == step_text(self.steps@[k as int]));
            let ghost before = lines@;
            lines.push(line);
            assert(views(lines@) =~= views(before).push(step_text(self.steps@[k as int])));
            k += 1;
            assert(views(lines@) =~= with_leaves + self.steps@.take(k as int).map_values(
                |s: Step| step_text(s),
            ));
        }
        assert(self.steps@.take(self.steps@.len() as int) =~= self.steps@);
        assert(views(lines@) =~= seq![heading_text] + self.leaves@.map_values(|l: Leaf| leaf_text(l))
            + self.steps@.map_values(|s: Step| step_text(s)));
        crate::strings::join(&lines, "\n")
    }
}


/// Why a good cannot be planned.
#[derive(Clone, Debug, PartialEq, Eq)]
pub enum Refusal {
    /// The substance is not declared at all.
    Undeclared(String),
    /// Declared, and nothing produces it and the world does not hold it.
    NoRoute { substance: String, source: &'static str },
    /// The table loops: this substance is reachable from itself.
    Cycle(Vec<String>),
    /// A row's numbers do not land on whole grams.
    NotExact(String),
}

/// A refusal's contents, as character sequences.
pub enum RefusalView {
    Undeclared(Seq<char>),
    NoRoute(Seq<char>, Seq<char>),
    Cycle(Seq<Seq<char>>),
    NotExact(Seq<char>),
}

impl View for Refusal {
    type V = RefusalView;

    open spec fn view(&self) -> RefusalView {
        match self {
            Refusal::Undeclared(name) => RefusalView::Undeclared(name@),
            Refusal::NoRoute { substance, source } => RefusalView::NoRoute(substance@, source@),
            Refusal::Cycle(path) => RefusalView::Cycle(views(path@)),
            Refusal::NotExact(name) => RefusalView::NotExact(name@),
        }
    }
}

/// A refusal as a person reads it.
pub open spec fn refusal_text(refusal: RefusalView) -> Seq<char> {
    match refusal {
        RefusalView::Undeclared(name) => "`"@ + name + "` is not a declared substance"@,
        RefusalView::NoRoute(substance, source) => "`"@ + substance + "` cannot be reached: it is `"@
            + source
            + "`, no process produces it, and the ground does not hold it — a plan that cannot reach the world would have to invent mass"@,
        RefusalView::Cycle(path) => "the process table loops: "@ + joined(path, " → "@)
            + " — a substance reachable from itself makes nothing"@,
        RefusalView::NotExact(name) => "`"@ + name
            + "` has a quantity that does not land on a whole gram, so the plan cannot be carried out in whole units"@,
    }
}

impl Refusal {
    /// The refusal as a person reads it.
    pub fn describe(&self) -> (r: String)
        ensures
            r@ == refusal_text(self@),
    {
        match self {
            Refusal::Undeclared(name) => {
                let mut r = String::from_str("`");
                r.append(name.as_str());
                r.append("` is not a declared substance");
                r
            },
            Refusal::NoRoute { substance, source } => {
                let mut r = String::from_str("`");
                r.append(substance.as_str());
                r.append("` cannot be reached: it is `");
                r.append(source);
                r.append(
                    "`, no process produces it, and the ground does not hold it — a plan that cannot reach the world would have to invent mass",
                );
                r
            },
            Refusal::Cycle(path) => {
                let mut r = String::from_str("the process table loops: ");
                let joined_path = crate::strings::join(path, " → ");
                r.append(joined_path.as_str());
                r.append(" — a substance reachable from itself makes nothing");
                r
            },
            Refusal::NotExact(name) => {
                let mut r = String::from_str("`");
                r.append(name.as_str());
                r.append(
                    "` has a quantity that does not land on a whole gram, so the plan cannot be carried out in whole units",
                );
                r
            },
        }
    }
}

/// Whether a process produces a substance: some output of it carries that name.
pub open spec fn produces(substance: Seq<char>) -> spec_fn(Process) -> bool {
    |process: Process|
        exists|j: int| 0 <= j < process.outputs@.len() && #[trigger] process.outputs@[j].0@ == substance
}

/// The first process of a table that produces a substance.
pub open spec fn spec_producer(processes: Seq<Process>, substance: Seq<char>) -> Option<Process> {
    let k = first_of(processes, produces(substance));
    if k < 0 {
        None
    } else {
        Some(processes[k])
    }
}

/// Whether an output row carries a name.
pub open spec fn output_named(substance: Seq<char>) -> spec_fn((&'static str, Rational)) -> bool {
    |row: (&'static str, Rational)| row.0@ == substance
}

/// The grams a process produces of a substance in one run.
pub open spec fn spec_output_grams(process: Process, substance: Seq<char>) -> Option<int> {
    let k = first_of(process.outputs@, output_named(substance));
    if k < 0 {
        None
    } else {
        spec_quantity_grams(substance, process.outputs@[k].1)
    }
}

/// How many whole runs it takes to produce at least `grams`, rounded up.
pub open spec fn spec_runs(grams: int, per_run: int) -> int {
    (grams + per_run - 1) / per_run
}

/// Whether a plan line carries a name.
pub open spec fn line_named(name: Seq<char>) -> spec_fn((&'static str, i64)) -> bool {
    |line: (&'static str, i64)| line.0@ == name
}

/// Add grams to a named line, merging with one already there. `None` when the merged
/// total leaves what 64 bits can count.
pub open spec fn spec_add(lines: Seq<(&'static str, i64)>, name: &'static str, grams: int) -> Option<
    Seq<(&'static str, i64)>,
> {
    if grams == 0 {
        Some(lines)
    } else {
        let k = first_of(lines, line_named(name@));
        if k < 0 {
            if fits_i64(grams) {
                Some(lines.push((name, grams as i64)))
            } else {
                None
            }
        } else if fits_i64(lines[k].1 + grams) {
            Some(lines.update(k, (lines[k].0, (lines[k].1 + grams) as i64)))
        } else {
            None
        }
    }
}

/// Add `grams` to a named line of the plan, merging with anything already there.
fn add(into: &mut Vec<(&'static str, i64)>, name: &'static str, grams: i64) -> (r: bool)
    ensures
        r == (spec_add(old(into)@, name, grams as int) is Some),
        r ==> spec_add(old(into)@, name, grams as int) == Some(final(into)@),
{
    if grams == 0 {
        return true;
    }
    let mut i: usize = 0;
    while i < into.len()
        invariant
            i <= into@.len(),
            into@ == old(into)@,
            first_upto(into@, line_named(name@), i as int) == -1,
            grams != 0,
        decreases into@.len() - i,
    {
        if same(into[i].0, name) {
            proof {
                first_stays(into@, line_named(name@), i as int + 1);
            }
            let (existing, held) = into[i];
            match held.checked_add(grams) {
                None => return false,
                Some(total) => {
                    into.set(i, (existing, total));
                    return true;
                },
            }
        }
        i += 1;
    }
    into.push((name, grams));
    true
}

/// A plan outcome: the plan it reaches, or the refusal.
pub enum Reduced {
    Done(PlanModel),
    Refused(RefusalView),
}

/// What a run of a process costs and yields, once the inputs have been planned.
pub open spec fn spec_finish_step(process: Process, runs: int, plan: PlanModel) -> Reduced {
    match (side_total(process.inputs@), side_total(process.outputs@)) {
        (Some(input), Some(output)) => if fits_i64(input * runs) && fits_i64(output * runs) {
            Reduced::Done(
                PlanModel {
                    steps: plan.steps.push(
                        Step {
                            process: process.name,
                            runs: runs as i64,
                            input_g: (input * runs) as i64,
                            output_g: (output * runs) as i64,
                        },
                    ),
                    ..plan
                },
            )
        } else {
            Reduced::Refused(RefusalView::NotExact(process.name@))
        },
        _ => Reduced::Refused(RefusalView::NotExact(process.name@)),
    }
}

/// The by-products of `runs` runs of a process, from its `k`-th output on.
pub open spec fn spec_by_products(
    outputs: Seq<(&'static str, Rational)>,
    k: int,
    declared: Seq<char>,
    runs: int,
    lines: Seq<(&'static str, i64)>,
) -> Result<Seq<(&'static str, i64)>, Seq<char>>
    decreases outputs.len() - k,
{
    if k >= outputs.len() || k < 0 {
        Ok(lines)
    } else if outputs[k].0@ == declared {
        spec_by_products(outputs, k + 1, declared, runs, lines)
    } else {
        match spec_quantity_grams(outputs[k].0@, outputs[k].1) {
            None => Err(outputs[k].0@),
            Some(q) => if !fits_i64(q * runs) {
                Err(outputs[k].0@)
            } else {
                match spec_add(lines, outputs[k].0, q * runs) {
                    None => Err(outputs[k].0@),
                    Some(next) => spec_by_products(outputs, k + 1, declared, runs, next),
                }
            },
        }
    }
}

/// The message a refusal carries when a process does not produce what it claims to.
pub open spec fn produces_text(process: Process, declared: Seq<char>) -> Seq<char> {
    process.name@ + " produces "@ + declared
}

/// The message a refusal carries when a process produces none of its target.
pub open spec fn produces_none_text(process: Process, declared: Seq<char>) -> Seq<char> {
    process.name@ + " produces no "@ + declared
}

/// Reduce `grams` of a substance into a plan, given the substances whose reduction is
/// still open (`stack`). This is the reduction's definition.
///
/// The branch on a stack as long as the table is never taken: a stack of distinct
/// declared names is no longer than the table (see [`lemma_stack_fits`]).
pub open spec fn spec_reduce(
    processes: Seq<Process>,
    substance: Seq<char>,
    grams: int,
    plan: PlanModel,
    stack: Seq<Seq<char>>,
) -> Reduced
    decreases SUBSTANCES_LEN - stack.len(), 0int, 0int,
{
    if grams <= 0 {
        Reduced::Done(plan)
    } else {
        match spec_substance(substance) {
            None => Reduced::Refused(RefusalView::Undeclared(substance)),
            Some(entry) => {
                let declared = entry.name;
                match spec_producer(processes, declared@) {
                    Some(process) => if process.inputs@.len() > 0 {
                        if stack.contains(declared@) || stack.len() >= SUBSTANCES_LEN {
                            Reduced::Refused(RefusalView::Cycle(stack.push(declared@)))
                        } else {
                            match spec_output_grams(process, declared@) {
                                None => Reduced::Refused(
                                    RefusalView::NotExact(produces_text(process, declared@)),
                                ),
                                Some(per_run) => if per_run <= 0 {
                                    Reduced::Refused(
                                        RefusalView::NotExact(produces_none_text(process, declared@)),
                                    )
                                } else if !fits_i64(spec_runs(grams, per_run) * per_run) {
                                    Reduced::Refused(
                                        RefusalView::NotExact(produces_text(process, declared@)),
                                    )
                                } else {
                                    let runs = spec_runs(grams, per_run);
                                    match spec_add(plan.surplus, declared, runs * per_run - grams) {
                                        None => Reduced::Refused(RefusalView::NotExact(declared@)),
                                        Some(surplus) => match spec_reduce_inputs(
                                            processes,
                                            process.inputs@,
                                            0,
                                            runs,
                                            PlanModel { surplus, ..plan },
                                            stack.push(declared@),
                                        ) {
                                            Reduced::Refused(e) => Reduced::Refused(e),
                                            Reduced::Done(after) => match spec_by_products(
                                                process.outputs@,
                                                0,
                                                declared@,
                                                runs,
                                                after.by_products,
                                            ) {
                                                Err(name) => Reduced::Refused(
                                                    RefusalView::NotExact(name),
                                                ),
                                                Ok(by_products) => spec_finish_step(
                                                    process,
                                                    runs,
                                                    PlanModel { by_products, ..after },
                                                ),
                                            },
                                        },
                                    }
                                },
                            }
                        }
                    } else {
                        spec_gather(process, declared, grams, plan)
                    },
                    None => if entry.source@ == "mined"@ || entry.source@ == "salvaged"@ {
                        Reduced::Done(
                            PlanModel {
                                leaves: plan.leaves.push(
                                    Leaf {
                                        substance: declared,
                                        grams: grams as i64,
                                        route: Route::Extract,
                                        process: None,
                                    },
                                ),
                                ..plan
                            },
                        )
                    } else {
                        Reduced::Refused(RefusalView::NoRoute(declared@, entry.source@))
                    },
                }
            },
        }
    }
}

/// A gather: a process with no inputs, the world handing over what it already grows.
pub open spec fn spec_gather(process: Process, declared: &'static str, grams: int, plan: PlanModel) -> Reduced {
    match spec_output_grams(process, declared@) {
        None => Reduced::Refused(RefusalView::NotExact(produces_text(process, declared@))),
        Some(per_run) => if per_run <= 0 {
            Reduced::Refused(RefusalView::NotExact(produces_none_text(process, declared@)))
        } else if !fits_i64(spec_runs(grams, per_run) * per_run) {
            Reduced::Refused(RefusalView::NotExact(produces_text(process, declared@)))
        } else {
            let runs = spec_runs(grams, per_run);
            match spec_add(plan.surplus, declared, runs * per_run - grams) {
                None => Reduced::Refused(RefusalView::NotExact(declared@)),
                Some(surplus) => match side_total(process.outputs@) {
                    Some(output) => if side_total(process.inputs@) is Some && fits_i64(output * runs) {
                        Reduced::Done(
                            PlanModel {
                                surplus,
                                steps: plan.steps.push(
                                    Step {
                                        process: process.name,
                                        runs: runs as i64,
                                        input_g: 0,
                                        output_g: (output * runs) as i64,
                                    },
                                ),
                                leaves: plan.leaves.push(
                                    Leaf {
                                        substance: declared,
                                        grams: grams as i64,
                                        route: Route::Gather,
                                        process: Some(process.name),
                                    },
                                ),
                                ..plan
                            },
                        )
                    } else {
                        Reduced::Refused(RefusalView::NotExact(process.name@))
                    },
                    None => Reduced::Refused(RefusalView::NotExact(process.name@)),
                },
            }
        },
    }
}

/// Reduce the inputs of `runs` runs of a process, from its `k`-th input on.
pub open spec fn spec_reduce_inputs(
    processes: Seq<Process>,
    inputs: Seq<(&'static str, Rational)>,
    k: int,
    runs: int,
    plan: PlanModel,
    stack: Seq<Seq<char>>,
) -> Reduced
    decreases SUBSTANCES_LEN - stack.len(), 1int, inputs.len() - k,
{
    if k >= inputs.len() || k < 0 {
        Reduced::Done(plan)
    } else {
        match spec_quantity_grams(inputs[k].0@, inputs[k].1) {
            None => Reduced::Refused(RefusalView::NotExact(inputs[k].0@)),
            Some(q) => if !fits_i64(q * runs) {
                Reduced::Refused(RefusalView::NotExact(inputs[k].0@))
            } else {
                match spec_reduce(processes, inputs[k].0@, q * runs, plan, stack) {
                    Reduced::Refused(e) => Reduced::Refused(e),
                    Reduced::Done(next) => spec_reduce_inputs(processes, inputs, k + 1, runs, next, stack),
                }
            },
        }
    }
}


/// Whether a refused cycle names where it closed: the last substance on the path is one
/// already open before it.
pub open spec fn cycle_closes(path: Seq<Seq<char>>) -> bool {
    path.len() >= 2 && path.drop_last().contains(path.last())
}

/// Whether a leaf really comes out of the world: a gather is the table's own producer of
/// the substance and takes nothing in; an extraction is a substance no process makes and
/// the ground holds (`mined` or `salvaged`).
pub open spec fn leaf_in_world(processes: Seq<Process>, leaf: Leaf) -> bool {
    match leaf.route {
        Route::Gather => spec_producer(processes, leaf.substance@) matches Some(p) && (p.inputs@.len()
            == 0 && leaf.process == Some(p.name)),
        Route::Extract => spec_producer(processes, leaf.substance@) is None && (spec_substance(
            leaf.substance@,
        ) matches Some(entry) && (entry.source@ == "mined"@ || entry.source@ == "salvaged"@))
            && leaf.process is None,
    }
}

/// Whether every leaf of a plan comes out of the world.
pub open spec fn leaves_in_world(processes: Seq<Process>, leaves: Seq<Leaf>) -> bool {
    forall|i: int| 0 <= i < leaves.len() ==> leaf_in_world(processes, #[trigger] leaves[i])
}

/// Whether a stack of open reductions is well formed: no substance twice, and every
/// entry the declared name of a substance.
pub open spec fn stack_ok(stack: Seq<Seq<char>>) -> bool {
    &&& stack.no_duplicates()
    &&& forall|i: int|
        0 <= i < stack.len() ==> ((#[trigger] spec_substance(stack[i])) matches Some(entry)
            && entry.name@ == stack[i])
}

/// The declared names, in table order.
pub open spec fn substance_names() -> Seq<Seq<char>> {
    spec_substances().map_values(|entry: Substance| entry.name@)
}

/// A stack of distinct declared names is no longer than the table: the reason the
/// reduction terminates.
pub proof fn lemma_stack_fits(stack: Seq<Seq<char>>)
    requires
        stack_ok(stack),
    ensures
        stack.len() <= SUBSTANCES_LEN,
{
    let names = substance_names();
    assert forall|x: Seq<char>| stack.to_set().contains(x) implies names.to_set().contains(x) by {
        let i = choose|i: int| 0 <= i < stack.len() && stack[i] == x;
        let k = first_of(spec_substances(), substance_named(x));
        lemma_first_upto(spec_substances(), substance_named(x), spec_substances().len() as int);
        assert(spec_substance(stack[i]) is Some);
        assert(names[k] == x);
    }
    stack.unique_seq_to_set();
    names.lemma_cardinality_of_set();
    vstd::set_lib::lemma_len_subset(stack.to_set(), names.to_set());
}

/// What a looked-up substance is: the first row carrying the name asked for.
pub proof fn lemma_substance_found(name: Seq<char>)
    ensures
        spec_substance(name) matches Some(entry) ==> entry.name@ == name
            && spec_substance(entry.name@) == spec_substance(name),
{
    lemma_first_upto(spec_substances(), substance_named(name), spec_substances().len() as int);
}

/// Whether a run of a reduction ended the way its definition says it does.
pub open spec fn reduced_as(
    expected: Reduced,
    r: Result<(), Refusal>,
    after: PlanModel,
    stack_after: Seq<Seq<char>>,
    stack_before: Seq<Seq<char>>,
) -> bool {
    match expected {
        Reduced::Done(plan) => r is Ok && after == plan && stack_after == stack_before,
        Reduced::Refused(e) => r matches Err(x) && x@ == e,
    }
}

/// Whether a process has an output carrying this name.
fn has_output(process: &Process, name: &str) -> (r: bool)
    ensures
        r == produces(name@)(*process),
{
    let mut j: usize = 0;
    while j < process.outputs.len()
        invariant
            j <= process.outputs@.len(),
            forall|k: int| 0 <= k < j ==> process.outputs@[k].0@ != name@,
        decreases process.outputs@.len() - j,
    {
        if same(process.outputs[j].0, name) {
            return true;
        }
        j += 1;
    }
    false
}

/// The first declared process that produces `substance`, if any.
///
/// **The first, and that is a named policy gap rather than a decision.**
fn producer(processes: &[Process], substance: &str) -> (r: Option<Process>)
    ensures
        r == spec_producer(processes@, substance@),
{
    let mut i: usize = 0;
    while i < processes.len()
        invariant
            i <= processes@.len(),
            first_upto(processes@, produces(substance@), i as int) == -1,
        decreases processes@.len() - i,
    {
        let candidate = processes[i];
        if has_output(&candidate, substance) {
            proof {
                first_stays(processes@, produces(substance@), i as int + 1);
            }
            return Some(candidate);
        }
        i += 1;
    }
    None
}

/// The grams a process produces of `substance` in one run.
fn output_grams(process: &Process, substance: &str) -> (r: Option<i64>)
    ensures
        r matches Some(g) ==> spec_output_grams(*process, substance@) == Some(g as int),
        r is None ==> spec_output_grams(*process, substance@) is None,
{
    let mut j: usize = 0;
    while j < process.outputs.len()
        invariant
            j <= process.outputs@.len(),
            first_upto(process.outputs@, output_named(substance@), j as int) == -1,
        decreases process.outputs@.len() - j,
    {
        let (name, amount) = process.outputs[j];
        if same(name, substance) {
            proof {
                first_stays(process.outputs@, output_named(substance@), j as int + 1);
            }
            return quantity_grams(substance, amount);
        }
        j += 1;
    }
    None
}

/// How many whole runs it takes to produce at least `grams`, rounded **up**.
fn runs_for(grams: i64, per_run: i64) -> (r: i64)
    requires
        grams > 0,
        per_run > 0,
    ensures
        r == spec_runs(grams as int, per_run as int),
        1 <= r <= grams,
{
    let g = grams as u128;
    let p = per_run as u128;
    let r = (g + p - 1) / p;
    proof {
        let gi = g as int;
        let pi = p as int;
        let ri = r as int;
        assert(ri == (gi + pi - 1) / pi);
        assert(1 <= ri <= gi) by (nonlinear_arith)
            requires
                ri == (gi + pi - 1) / pi,
                gi >= 1,
                pi >= 1,
        ;
    }
    r as i64
}

/// Whether the stack already holds a name.
fn stack_holds(stack: &Vec<String>, name: &str) -> (r: bool)
    ensures
        r == views(stack@).contains(name@),
{
    let mut i: usize = 0;
    while i < stack.len()
        invariant
            i <= stack@.len(),
            forall|k: int| 0 <= k < i ==> stack@[k]@ != name@,
        decreases stack@.len() - i,
    {
        if same(stack[i].as_str(), name) {
            assert(views(stack@)[i as int] == name@);
            return true;
        }
        i += 1;
    }
    assert(!views(stack@).contains(name@)) by {
        if views(stack@).contains(name@) {
            let k = choose|k: int| 0 <= k < views(stack@).len() && views(stack@)[k] == name@;
            assert(stack@[k]@ == name@);
        }
    }
    false
}

/// A copy of the stack, name for name.
fn copy_names(stack: &Vec<String>) -> (r: Vec<String>)
    ensures
        views(r@) == views(stack@),
{
    let mut out: Vec<String> = Vec::new();
    let mut i: usize = 0;
    while i < stack.len()
        invariant
            i <= stack@.len(),
            views(out@) =~= views(stack@).take(i as int),
        decreases stack@.len() - i,
    {
        let name = stack[i].clone();
        assert(name@ == stack@[i as int]@);
        let ghost before = out@;
        out.push(name);
        assert(views(out@) =~= views(before).push(stack@[i as int]@));
        i += 1;
        assert(views(out@) =~= views(stack@).take(i as int));
    }
    assert(views(stack@).take(stack@.len() as int) =~= views(stack@));
    out
}

/// The message a process carries when it does not produce what it claims to.
fn produces_message(process: &Process, declared: &str, none: bool) -> (r: String)
    ensures
        r@ == (if none {
            produces_none_text(*process, declared@)
        } else {
            produces_text(*process, declared@)
        }),
{
    let mut r = String::from_str(process.name);
    if none {
        r.append(" produces no ");
    } else {
        r.append(" produces ");
    }
    r.append(declared);
    r
}


/// Reduce `grams` of a substance into the plan. The body follows [`spec_reduce`] step for
/// step; the stack is restored when the reduction succeeds.
#[verifier::loop_isolation(false)]
fn reduce(
    processes: &[Process],
    substance_name: &str,
    grams: i64,
    plan: &mut Plan,
    stack: &mut Vec<String>,
) -> (r: Result<(), Refusal>)
    requires
        stack_ok(views(old(stack)@)),
    ensures
        reduced_as(
            spec_reduce(processes@, substance_name@, grams as int, old(plan)@, views(old(stack)@)),
            r,
            final(plan)@,
            views(final(stack)@),
            views(old(stack)@),
        ),
        r matches Err(Refusal::Cycle(path)) ==> cycle_closes(views(path@)),
        leaves_in_world(processes@, old(plan)@.leaves) && r is Ok ==> leaves_in_world(
            processes@,
            final(plan)@.leaves,
        ),
        r is Ok ==> final(plan)@.wanted == old(plan)@.wanted,
    decreases SUBSTANCES_LEN - old(stack)@.len(),
{
    if grams <= 0 {
        proof {
            assert(plan@ =~= old(plan)@);
        }
        return Ok(());
    }
    let entry = match substance(substance_name) {
        Some(entry) => entry,
        None => return Err(Refusal::Undeclared(String::from_str(substance_name))),
    };
    proof {
        lemma_substance_found(substance_name@);
    }
    let declared = entry.name;
    let ghost stack0 = views(stack@);
    let ghost plan0 = plan@;
    match producer(processes, declared) {
        Some(process) => {
            if process.inputs.len() > 0 {
                if stack_holds(stack, declared) {
                    stack.push(String::from_str(declared));
                    proof {
                        assert(views(stack@) =~= stack0.push(declared@));
                        let path = views(stack@);
                        assert(path.drop_last() =~= stack0);
                    }
                    return Err(Refusal::Cycle(copy_names(stack)));
                }
                let ghost stack2 = stack0.push(declared@);
                proof {
                    assert(stack_ok(stack2)) by {
                        assert forall|i: int| 0 <= i < stack2.len() implies ((#[trigger] spec_substance(stack2[i])) matches Some(e)
                            && e.name@ == stack2[i]) by {
                            if i < stack0.len() {
                                assert(stack2[i] == stack0[i]);
                            }
                        }
                    }
                    lemma_stack_fits(stack2);
                }
                stack.push(String::from_str(declared));
                proof {
                    assert(views(stack@) =~= stack2);
                }
                let per_run = match output_grams(&process, declared) {
                    Some(g) => g,
                    None => return Err(Refusal::NotExact(produces_message(&process, declared, false))),
                };
                if per_run <= 0 {
                    return Err(Refusal::NotExact(produces_message(&process, declared, true)));
                }
                let runs = runs_for(grams, per_run);
                let produced = match runs.checked_mul(per_run) {
                    Some(p) => p,
                    None => return Err(Refusal::NotExact(produces_message(&process, declared, false))),
                };
                if !self::add(&mut plan.surplus, declared, produced - grams) {
                    return Err(Refusal::NotExact(String::from_str(declared)));
                }
                let ghost plan1 = plan@;
                proof {
                    assert(plan1 =~= PlanModel { surplus: plan1.surplus, ..plan0 });
                }
                let mut i: usize = 0;
                while i < process.inputs.len()
                    invariant
                        i <= process.inputs@.len(),
                        stack_ok(stack2),
                        stack2.len() <= SUBSTANCES_LEN,
                        views(stack@) == stack2,
                        runs > 0,
                        spec_reduce_inputs(processes@, process.inputs@, i as int, runs as int, plan@, stack2)
                            == spec_reduce_inputs(processes@, process.inputs@, 0, runs as int, plan1, stack2),
                        leaves_in_world(processes@, plan0.leaves) ==> leaves_in_world(processes@, plan@.leaves),
                        plan@.wanted == plan0.wanted,
                    decreases process.inputs@.len() - i,
                {
                    let (name, amount) = process.inputs[i];
                    let q = match quantity_grams(name, amount) {
                        Some(q) => q,
                        None => return Err(Refusal::NotExact(String::from_str(name))),
                    };
                    let needed = match q.checked_mul(runs) {
                        Some(n) => n,
                        None => return Err(Refusal::NotExact(String::from_str(name))),
                    };
                    let ghost plan_before = plan@;
                    match reduce(processes, name, needed, plan, stack) {
                        Err(e) => return Err(e),
                        Ok(()) => {},
                    }
                    i += 1;
                }
                let ghost plan2 = plan@;
                let mut j: usize = 0;
                while j < process.outputs.len()
                    invariant
                        j <= process.outputs@.len(),
                        views(stack@) == stack2,
                        runs > 0,
                        plan@ == (PlanModel { by_products: plan@.by_products, ..plan2 }),
                        spec_by_products(process.outputs@, j as int, declared@, runs as int, plan@.by_products)
                            == spec_by_products(process.outputs@, 0, declared@, runs as int, plan2.by_products),
                        leaves_in_world(processes@, plan0.leaves) ==> leaves_in_world(processes@, plan@.leaves),
                    decreases process.outputs@.len() - j,
                {
                    let (name, amount) = process.outputs[j];
                    if !same(name, declared) {
                        let q = match quantity_grams(name, amount) {
                            Some(q) => q,
                            None => return Err(Refusal::NotExact(String::from_str(name))),
                        };
                        let made = match q.checked_mul(runs) {
                            Some(m) => m,
                            None => return Err(Refusal::NotExact(String::from_str(name))),
                        };
                        if !self::add(&mut plan.by_products, name, made) {
                            return Err(Refusal::NotExact(String::from_str(name)));
                        }
                    }
                    j += 1;
                }
                let input = match side_grams(process.inputs) {
                    Some(g) => g,
                    None => return Err(Refusal::NotExact(String::from_str(process.name))),
                };
                let output = match side_grams(process.outputs) {
                    Some(g) => g,
                    None => return Err(Refusal::NotExact(String::from_str(process.name))),
                };
                let input_g = match input.checked_mul(runs) {
                    Some(g) => g,
                    None => return Err(Refusal::NotExact(String::from_str(process.name))),
                };
                let output_g = match output.checked_mul(runs) {
                    Some(g) => g,
                    None => return Err(Refusal::NotExact(String::from_str(process.name))),
                };
                plan.steps.push(Step { process: process.name, runs, input_g, output_g });
                let ghost before_pop = stack@;
                stack.pop();
                proof {
                    assert(stack@ =~= before_pop.drop_last());
                    assert(views(before_pop.drop_last()) =~= views(before_pop).drop_last());
                    assert(views(stack@) =~= stack0);
                }
                Ok(())
            } else {
                let per_run = match output_grams(&process, declared) {
                    Some(g) => g,
                    None => return Err(Refusal::NotExact(produces_message(&process, declared, false))),
                };
                if per_run <= 0 {
                    return Err(Refusal::NotExact(produces_message(&process, declared, true)));
                }
                let runs = runs_for(grams, per_run);
                let produced = match runs.checked_mul(per_run) {
                    Some(p) => p,
                    None => return Err(Refusal::NotExact(produces_message(&process, declared, false))),
                };
                if !self::add(&mut plan.surplus, declared, produced - grams) {
                    return Err(Refusal::NotExact(String::from_str(declared)));
                }
                let output = match side_grams(process.outputs) {
                    Some(g) => g,
                    None => return Err(Refusal::NotExact(String::from_str(process.name))),
                };
                match side_grams(process.inputs) {
                    Some(_) => {},
                    None => return Err(Refusal::NotExact(String::from_str(process.name))),
                }
                let output_g = match output.checked_mul(runs) {
                    Some(g) => g,
                    None => return Err(Refusal::NotExact(String::from_str(process.name))),
                };
                plan.steps.push(Step { process: process.name, runs, input_g: 0, output_g });
                plan.leaves.push(
                    Leaf {
                        substance: declared,
                        grams,
                        route: Route::Gather,
                        process: Some(process.name),
                    },
                );
                proof {
                    assert(plan@ =~= (PlanModel {
                        surplus: plan@.surplus,
                        steps: plan0.steps.push(Step { process: process.name, runs, input_g: 0, output_g }),
                        leaves: plan0.leaves.push(Leaf {
                            substance: declared,
                            grams,
                            route: Route::Gather,
                            process: Some(process.name),
                        }),
                        ..plan0
                    }));
                }
                Ok(())
            }
        },
        None => {
            if same(entry.source, "mined") || same(entry.source, "salvaged") {
                plan.leaves.push(
                    Leaf { substance: declared, grams, route: Route::Extract, process: None },
                );
                proof {
                    assert(plan@ =~= (PlanModel {
                        leaves: plan0.leaves.push(Leaf { substance: declared, grams, route: Route::Extract, process: None }),
                        ..plan0
                    }));
                }
                Ok(())
            } else {
                Err(Refusal::NoRoute { substance: String::from_str(declared), source: entry.source })
            }
        },
    }
}


/// A plan outcome, read against a result: the plan the definition reaches, or its refusal.
pub open spec fn planned_as(expected: Reduced, r: Result<Plan, Refusal>) -> bool {
    match expected {
        Reduced::Done(plan) => r matches Ok(got) && got@ == plan,
        Reduced::Refused(e) => r matches Err(x) && x@ == e,
    }
}

/// Reduce a wanted amount of a substance to the world's own material and the work between
/// them, against a given table — which is what makes the cycle check testable, because a
/// table that loops cannot be the one that ships.
pub fn plan_with(processes: &[Process], substance: &str, grams: i64) -> (r: Result<Plan, Refusal>)
    ensures
        planned_as(spec_reduce(processes@, substance@, grams as int, asked(substance@, grams), Seq::empty()), r),
        r matches Ok(plan) ==> plan@.wanted == asked_for(substance@, grams),
        r matches Ok(plan) ==> leaves_in_world(processes@, plan@.leaves),
        r matches Err(Refusal::Cycle(path)) ==> cycle_closes(views(path@)),
{
    let mut wanted: Vec<(&'static str, i64)> = Vec::new();
    match crate::materials::schema::substance(substance) {
        Some(entry) => wanted.push((entry.name, grams)),
        None => {},
    }
    let mut plan = Plan {
        wanted,
        leaves: Vec::new(),
        steps: Vec::new(),
        surplus: Vec::new(),
        by_products: Vec::new(),
    };
    let mut stack: Vec<String> = Vec::new();
    proof {
        assert(plan@ =~= asked(substance@, grams));
        assert(views(stack@) =~= Seq::<Seq<char>>::empty());
    }
    match reduce(processes, substance, grams, &mut plan, &mut stack) {
        Ok(()) => Ok(plan),
        Err(refusal) => Err(refusal),
    }
}

/// Reduce a wanted amount of a substance using the table the game ships.
pub fn plan(substance: &str, grams: i64) -> (r: Result<Plan, Refusal>)
    ensures
        planned_as(spec_reduce(spec_processes(), substance@, grams as int, asked(substance@, grams), Seq::empty()), r),
        r matches Ok(plan) ==> plan@.wanted == asked_for(substance@, grams),
        r matches Ok(plan) ==> leaves_in_world(spec_processes(), plan@.leaves),
        r matches Err(Refusal::Cycle(path)) ==> cycle_closes(views(path@)),
        r matches Ok(plan) ==> steps_balance(plan@) && steps_fed(spec_processes(), plan@),
        r matches Ok(plan) ==> extracted_total(plan@.leaves) + steps_out(plan@.steps) == (if grams > 0 {
            grams as int
        } else {
            0
        }) + steps_in(plan@.steps) + lines_total(plan@.surplus) + lines_total(plan@.by_products),
        grams > 0 ==> (r matches Ok(plan) ==> plan@.leaves.len() > 0 && made_in(
            spec_processes(),
            plan@,
            substance@,
            plan@.steps.len() as int,
        )),
{
    let table = processes();
    proof {
        law_shipped_plans_balance_and_come_in_order(substance@, grams);
        lemma_shipped_outputs();
        lemma_shipped_table_balances();
        law_a_plan_places_every_gram(spec_processes(), substance@, grams);
    }
    plan_with(table.as_slice(), substance, grams)
}

/// Whether the `i`-th step of a plan balances: it takes in what it gives out, or it is a
/// gather, taking nothing in, whose leaf the plan holds.
pub open spec fn step_balances(plan: PlanModel, i: int) -> bool {
    ||| plan.steps[i].input_g == plan.steps[i].output_g
    ||| plan.steps[i].input_g == 0 && exists|j: int|
        0 <= j < plan.leaves.len() && (#[trigger] plan.leaves[j]).route == Route::Gather
            && plan.leaves[j].process == Some(plan.steps[i].process)
}

/// Whether every step of a plan balances.
pub open spec fn steps_balance(plan: PlanModel) -> bool {
    forall|i: int| 0 <= i < plan.steps.len() ==> #[trigger] step_balances(plan, i)
}

/// Whether every transformation of a table (a process that takes something in) balances.
pub open spec fn transformations_balance(processes: Seq<Process>) -> bool {
    forall|k: int|
        0 <= k < processes.len() && (#[trigger] processes[k]).inputs@.len() > 0
            ==> crate::materials::schema::spec_balances(processes[k])
}

/// Whether every input row of one side weighs something, wherever it reaches grams.
pub open spec fn inputs_weigh(side: Seq<(&'static str, Rational)>) -> bool {
    forall|j: int|
        0 <= j < side.len() ==> (spec_quantity_grams((#[trigger] side[j]).0@, side[j].1) matches Some(
            q,
        ) ==> q > 0)
}

/// Whether every input row of every process of a table weighs something.
pub open spec fn table_inputs_weigh(processes: Seq<Process>) -> bool {
    forall|k: int| 0 <= k < processes.len() ==> inputs_weigh((#[trigger] processes[k]).inputs@)
}

/// Whether a plan already has a substance in hand: the world gives it up as a leaf, or one
/// of the plan's steps before the `before`-th is a run of the substance's producer.
pub open spec fn made_in(processes: Seq<Process>, plan: PlanModel, substance: Seq<char>, before: int) -> bool {
    spec_substance(substance) matches Some(entry) && {
        ||| exists|j: int| 0 <= j < plan.leaves.len() && (#[trigger] plan.leaves[j]).substance@ == entry.name@
        ||| spec_producer(processes, entry.name@) matches Some(p) && exists|j: int|
            0 <= j < before && j < plan.steps.len() && (#[trigger] plan.steps[j]).process == p.name
    }
}

/// Whether an input row that weighs something is in hand before the `before`-th step.
pub open spec fn input_made(processes: Seq<Process>, plan: PlanModel, row: (&'static str, Rational), before: int) -> bool {
    (spec_quantity_grams(row.0@, row.1) matches Some(q) && q > 0) ==> made_in(processes, plan, row.0@, before)
}

/// Whether the `i`-th step of a plan is fed: it runs a process of the table each of whose
/// weighing inputs the plan has in hand before it.
pub open spec fn step_fed(processes: Seq<Process>, plan: PlanModel, i: int) -> bool {
    exists|k: int|
        0 <= k < processes.len() && (#[trigger] processes[k]).name == plan.steps[i].process && forall|m: int|
            0 <= m < processes[k].inputs@.len() ==> #[trigger] input_made(
                processes,
                plan,
                processes[k].inputs@[m],
                i,
            )
}

/// Whether every step of a plan is fed.
pub open spec fn steps_fed(processes: Seq<Process>, plan: PlanModel) -> bool {
    forall|i: int| 0 <= i < plan.steps.len() ==> #[trigger] step_fed(processes, plan, i)
}

/// Whether one plan carries another on: every leaf and every step of the earlier one, in
/// place, with anything new after them.
pub open spec fn carries_on(after: PlanModel, plan: PlanModel) -> bool {
    &&& after.leaves.len() >= plan.leaves.len()
    &&& forall|j: int|
        #![trigger after.leaves[j]]
        #![trigger plan.leaves[j]]
        0 <= j < plan.leaves.len() ==> after.leaves[j] == plan.leaves[j]
    &&& after.steps.len() >= plan.steps.len()
    &&& forall|j: int|
        #![trigger after.steps[j]]
        #![trigger plan.steps[j]]
        0 <= j < plan.steps.len() ==> after.steps[j] == plan.steps[j]
}

/// The producer a table names for a substance is one of its rows.
proof fn lemma_producer_in(processes: Seq<Process>, name: Seq<char>)
    ensures
        spec_producer(processes, name) matches Some(p) ==> exists|k: int|
            0 <= k < processes.len() && #[trigger] processes[k] == p,
{
    lemma_first_upto(processes, produces(name), processes.len() as int);
    if spec_producer(processes, name) is Some {
        let k = first_of(processes, produces(name));
        assert(processes[k] == spec_producer(processes, name)->0);
    }
}

/// A run count for a positive want is at least one run.
proof fn lemma_runs_positive(grams: int, per_run: int)
    requires
        grams > 0,
        per_run > 0,
    ensures
        spec_runs(grams, per_run) >= 1,
{
    assert((grams + per_run - 1) / per_run >= 1) by (nonlinear_arith)
        requires
            grams > 0,
            per_run > 0,
    ;
}

/// What a plan has in hand it keeps as it is carried on.
proof fn lemma_made_in_carries(
    processes: Seq<Process>,
    plan: PlanModel,
    after: PlanModel,
    substance: Seq<char>,
    before: int,
    later: int,
)
    requires
        carries_on(after, plan),
        made_in(processes, plan, substance, before),
        before <= later,
    ensures
        made_in(processes, after, substance, later),
{
    let entry = spec_substance(substance)->0;
    if exists|j: int| 0 <= j < plan.leaves.len() && (#[trigger] plan.leaves[j]).substance@ == entry.name@ {
        let j = choose|j: int| 0 <= j < plan.leaves.len() && (#[trigger] plan.leaves[j]).substance@ == entry.name@;
        assert(after.leaves[j] == plan.leaves[j]);
    } else {
        let p = spec_producer(processes, entry.name@)->0;
        let j = choose|j: int| 0 <= j < before && j < plan.steps.len() && (#[trigger] plan.steps[j]).process == p.name;
        assert(after.steps[j] == plan.steps[j]);
    }
}

/// Carrying a plan on keeps each of its steps balanced and fed.
proof fn lemma_steps_carry(processes: Seq<Process>, plan: PlanModel, after: PlanModel)
    requires
        carries_on(after, plan),
    ensures
        forall|i: int| 0 <= i < plan.steps.len() && step_balances(plan, i) ==> #[trigger] step_balances(after, i),
        forall|i: int| 0 <= i < plan.steps.len() && step_fed(processes, plan, i) ==> #[trigger] step_fed(processes, after, i),
{
    assert forall|i: int| 0 <= i < plan.steps.len() && step_balances(plan, i) implies #[trigger] step_balances(after, i) by {
        assert(after.steps[i] == plan.steps[i]);
        if !(plan.steps[i].input_g == plan.steps[i].output_g) {
            let j = choose|j: int|
                0 <= j < plan.leaves.len() && (#[trigger] plan.leaves[j]).route == Route::Gather
                    && plan.leaves[j].process == Some(plan.steps[i].process);
            assert(after.leaves[j] == plan.leaves[j]);
        }
    }
    assert forall|i: int| 0 <= i < plan.steps.len() && step_fed(processes, plan, i) implies #[trigger] step_fed(processes, after, i) by {
        assert(after.steps[i] == plan.steps[i]);
        let k = choose|k: int|
            0 <= k < processes.len() && (#[trigger] processes[k]).name == plan.steps[i].process && forall|m: int|
                0 <= m < processes[k].inputs@.len() ==> #[trigger] input_made(processes, plan, processes[k].inputs@[m], i);
        assert forall|m: int| 0 <= m < processes[k].inputs@.len() implies #[trigger] input_made(processes, after, processes[k].inputs@[m], i) by {
            let row = processes[k].inputs@[m];
            assert(input_made(processes, plan, row, i));
            if spec_quantity_grams(row.0@, row.1) matches Some(q) && q > 0 {
                lemma_made_in_carries(processes, plan, after, row.0@, i, i);
            }
        }
    }
}

/// What a reduction keeps and adds. It carries the plan on; it keeps every step balanced
/// where the table's transformations balance, and every step fed; a positive want puts
/// the substance in hand, with at least one more leaf where the table's inputs weigh.
proof fn lemma_reduce_keeps(
    processes: Seq<Process>,
    substance: Seq<char>,
    grams: int,
    plan: PlanModel,
    stack: Seq<Seq<char>>,
)
    ensures
        spec_reduce(processes, substance, grams, plan, stack) matches Reduced::Done(after) ==> {
            &&& carries_on(after, plan)
            &&& transformations_balance(processes) && steps_balance(plan) ==> steps_balance(after)
            &&& steps_fed(processes, plan) ==> steps_fed(processes, after)
            &&& grams > 0 ==> made_in(processes, after, substance, after.steps.len() as int)
            &&& grams > 0 && table_inputs_weigh(processes) ==> after.leaves.len() > plan.leaves.len()
        },
    decreases SUBSTANCES_LEN - stack.len(), 0int, 1int,
{
    if grams <= 0 {
        return;
    }
    match spec_substance(substance) {
        None => {},
        Some(entry) => {
            let declared = entry.name;
            lemma_substance_found(substance);
            lemma_producer_in(processes, declared@);
            match spec_producer(processes, declared@) {
                Some(process) => {
                    let k = choose|k: int| 0 <= k < processes.len() && #[trigger] processes[k] == process;
                    if process.inputs@.len() > 0 {
                        if !(stack.contains(declared@) || stack.len() >= SUBSTANCES_LEN) {
                            lemma_transform_keeps(processes, k, entry, grams, plan, stack);
                        }
                    } else {
                        lemma_gather_keeps(processes, k, declared, grams, plan);
                        if spec_gather(process, declared, grams, plan) is Done {
                            let after = spec_gather(process, declared, grams, plan)->Done_0;
                            assert(after.leaves[plan.leaves.len() as int].substance@ == entry.name@);
                        }
                    }
                },
                None => {
                    let after = PlanModel {
                        leaves: plan.leaves.push(
                            Leaf {
                                substance: declared,
                                grams: grams as i64,
                                route: Route::Extract,
                                process: None,
                            },
                        ),
                        ..plan
                    };
                    lemma_steps_carry(processes, plan, after);
                    assert(after.leaves[plan.leaves.len() as int].substance@ == entry.name@);
                },
            }
        },
    }
}

/// The transformation branch of a reduction: its inputs, then its by-products, then its
/// step.
proof fn lemma_transform_keeps(
    processes: Seq<Process>,
    k: int,
    entry: Substance,
    grams: int,
    plan: PlanModel,
    stack: Seq<Seq<char>>,
)
    requires
        0 <= k < processes.len(),
        grams > 0,
        spec_substance(entry.name@) == Some(entry),
        spec_producer(processes, entry.name@) == Some(processes[k]),
        processes[k].inputs@.len() > 0,
        !stack.contains(entry.name@),
        stack.len() < SUBSTANCES_LEN,
    ensures
        spec_reduce(processes, entry.name@, grams, plan, stack) matches Reduced::Done(after) ==> {
            &&& carries_on(after, plan)
            &&& transformations_balance(processes) && steps_balance(plan) ==> steps_balance(after)
            &&& steps_fed(processes, plan) ==> steps_fed(processes, after)
            &&& made_in(processes, after, entry.name@, after.steps.len() as int)
            &&& table_inputs_weigh(processes) ==> after.leaves.len() > plan.leaves.len()
        },
    decreases SUBSTANCES_LEN - stack.len(), 0int, 0int,
{
    let process = processes[k];
    let declared = entry.name;
    lemma_substance_found(entry.name@);
    match spec_output_grams(process, declared@) {
        None => {},
        Some(per_run) => {
            if per_run > 0 && fits_i64(spec_runs(grams, per_run) * per_run) {
                let runs = spec_runs(grams, per_run);
                lemma_runs_positive(grams, per_run);
                match spec_add(plan.surplus, declared, runs * per_run - grams) {
                    None => {},
                    Some(surplus) => {
                        let start = PlanModel { surplus, ..plan };
                        let pushed = stack.push(declared@);
                        lemma_steps_carry(processes, plan, start);
                        assert(steps_balance(plan) ==> steps_balance(start)) by {
                            if steps_balance(plan) {
                                assert forall|i: int| 0 <= i < start.steps.len() implies #[trigger] step_balances(start, i) by {
                                    assert(step_balances(plan, i));
                                }
                            }
                        }
                        assert(steps_fed(processes, plan) ==> steps_fed(processes, start)) by {
                            if steps_fed(processes, plan) {
                                assert forall|i: int| 0 <= i < start.steps.len() implies #[trigger] step_fed(processes, start, i) by {
                                    assert(step_fed(processes, plan, i));
                                }
                            }
                        }
                        lemma_reduce_inputs_keeps(processes, process.inputs@, 0, runs, start, pushed);
                        match spec_reduce_inputs(processes, process.inputs@, 0, runs, start, pushed) {
                            Reduced::Refused(_) => {},
                            Reduced::Done(after) => {
                                match spec_by_products(process.outputs@, 0, declared@, runs, after.by_products) {
                                    Err(_) => {},
                                    Ok(by_products) => {
                                        let mid = PlanModel { by_products, ..after };
                                        if spec_finish_step(process, runs, mid) is Done {
                                            let done = spec_finish_step(process, runs, mid)->Done_0;
                                            let n = after.steps.len() as int;
                                            assert(carries_on(done, after));
                                            lemma_steps_carry(processes, after, done);
                                            assert(done.steps[n].process == process.name);
                                            if transformations_balance(processes) && steps_balance(plan) {
                                                assert(crate::materials::schema::spec_balances(processes[k]));
                                                assert(step_balances(done, n));
                                                assert forall|i: int| 0 <= i < done.steps.len() implies #[trigger] step_balances(done, i) by {
                                                    if i < n {
                                                        assert(step_balances(after, i));
                                                    }
                                                }
                                            }
                                            if steps_fed(processes, plan) {
                                                assert forall|m: int| 0 <= m < processes[k].inputs@.len() implies #[trigger] input_made(
                                                    processes,
                                                    done,
                                                    processes[k].inputs@[m],
                                                    n,
                                                ) by {
                                                    let row = processes[k].inputs@[m];
                                                    assert(input_made(processes, after, row, n));
                                                    if spec_quantity_grams(row.0@, row.1) matches Some(q) && q > 0 {
                                                        lemma_made_in_carries(processes, after, done, row.0@, n, n);
                                                    }
                                                }
                                                assert(step_fed(processes, done, n));
                                                assert forall|i: int| 0 <= i < done.steps.len() implies #[trigger] step_fed(processes, done, i) by {
                                                    if i < n {
                                                        assert(step_fed(processes, after, i));
                                                    }
                                                }
                                            }
                                            if table_inputs_weigh(processes) {
                                                assert(inputs_weigh(processes[k].inputs@));
                                            }
                                        }
                                    },
                                }
                            },
                        }
                    },
                }
            }
        },
    }
}

/// A gather carries a plan on with its leaf, and keeps it balanced and fed.
proof fn lemma_gather_keeps(processes: Seq<Process>, k: int, declared: &'static str, grams: int, plan: PlanModel)
    requires
        0 <= k < processes.len(),
        processes[k].inputs@.len() == 0,
    ensures
        spec_gather(processes[k], declared, grams, plan) matches Reduced::Done(after) ==> {
            &&& carries_on(after, plan)
            &&& steps_balance(plan) ==> steps_balance(after)
            &&& steps_fed(processes, plan) ==> steps_fed(processes, after)
            &&& after.leaves.len() == plan.leaves.len() + 1
            &&& after.leaves[plan.leaves.len() as int].substance == declared
        },
{
    let process = processes[k];
    if spec_gather(process, declared, grams, plan) is Done {
        let after = spec_gather(process, declared, grams, plan)->Done_0;
        let n = plan.steps.len() as int;
        lemma_steps_carry(processes, plan, after);
        assert(after.leaves[plan.leaves.len() as int].route == Route::Gather);
        assert(step_balances(after, n));
        assert(step_fed(processes, after, n));
    }
}

/// What reducing the inputs of a process keeps and adds. It carries the plan on, keeping
/// it balanced and fed as a reduction does; with positive runs, every weighing input is
/// in hand afterwards, and with an input left to reduce and weighing inputs, at least one
/// more leaf.
proof fn lemma_reduce_inputs_keeps(
    processes: Seq<Process>,
    inputs: Seq<(&'static str, Rational)>,
    k: int,
    runs: int,
    plan: PlanModel,
    stack: Seq<Seq<char>>,
)
    ensures
        spec_reduce_inputs(processes, inputs, k, runs, plan, stack) matches Reduced::Done(after) ==> {
            &&& carries_on(after, plan)
            &&& transformations_balance(processes) && steps_balance(plan) ==> steps_balance(after)
            &&& steps_fed(processes, plan) ==> steps_fed(processes, after)
            &&& runs > 0 && 0 <= k ==> forall|m: int|
                k <= m < inputs.len() ==> #[trigger] input_made(processes, after, inputs[m], after.steps.len() as int)
            &&& 0 <= k < inputs.len() && runs > 0 && inputs_weigh(inputs) && table_inputs_weigh(processes)
                ==> after.leaves.len() > plan.leaves.len()
        },
    decreases SUBSTANCES_LEN - stack.len(), 1int, inputs.len() - k,
{
    if k >= inputs.len() || k < 0 {
        return;
    }
    match spec_quantity_grams(inputs[k].0@, inputs[k].1) {
        None => {},
        Some(q) => {
            if fits_i64(q * runs) {
                lemma_reduce_keeps(processes, inputs[k].0@, q * runs, plan, stack);
                match spec_reduce(processes, inputs[k].0@, q * runs, plan, stack) {
                    Reduced::Refused(_) => {},
                    Reduced::Done(next) => {
                        lemma_reduce_inputs_keeps(processes, inputs, k + 1, runs, next, stack);
                        if spec_reduce_inputs(processes, inputs, k + 1, runs, next, stack) is Done {
                            let after = spec_reduce_inputs(processes, inputs, k + 1, runs, next, stack)->Done_0;
                            let n = after.steps.len() as int;
                            if runs > 0 {
                                if q > 0 {
                                    assert(q * runs > 0) by (nonlinear_arith)
                                        requires
                                            q > 0,
                                            runs > 0,
                                    ;
                                    lemma_made_in_carries(
                                        processes,
                                        next,
                                        after,
                                        inputs[k].0@,
                                        next.steps.len() as int,
                                        n,
                                    );
                                }
                                assert(input_made(processes, after, inputs[k], n));
                            }
                            if runs > 0 && inputs_weigh(inputs) {
                                assert(q > 0) by {
                                    let row = inputs[k];
                                }
                                assert(q * runs > 0) by (nonlinear_arith)
                                    requires
                                        q > 0,
                                        runs > 0,
                                ;
                            }
                        }
                    },
                }
            }
        },
    }
}

/// A row of the table declared by mass weighs, in a whole number of grams over one, what
/// its amount says.
proof fn lemma_mass_row(k: int, amount: Rational)
    requires
        0 <= k < 16,
        spec_substances()[k].unit@ == "Mass"@,
        amount.den == 1,
        amount.num > 0,
    ensures
        spec_quantity_grams(spec_substances()[k].name@, amount) == Some(amount.num as int),
{
    crate::materials::schema::lemma_every_substance_found();
    let t = spec_substances();
    assert(spec_substance(t[k].name@) == Some(t[k]));
    let n = amount.num as int;
    assert(n % 1 == 0 && n / 1 == n) by (nonlinear_arith);
}

/// Every substance the shipped table's processes take in or give out reaches grams: the
/// grams of one row of each, looked up under its declared name.
proof fn lemma_shipped_quantities()
    ensures
        spec_quantity_grams("timber"@, Rational { num: 3000, den: 1 }) == Some(3000int),
        spec_quantity_grams("haft_blank"@, Rational { num: 2400, den: 1 }) == Some(2400int),
        spec_quantity_grams("timber_offcuts"@, Rational { num: 600, den: 1 }) == Some(600int),
        spec_quantity_grams("stone"@, Rational { num: 1000, den: 1 }) == Some(1000int),
        spec_quantity_grams("knapped_edge"@, Rational { num: 800, den: 1 }) == Some(800int),
        spec_quantity_grams("stone_flakes"@, Rational { num: 200, den: 1 }) == Some(200int),
        spec_quantity_grams("plant_fibre"@, Rational { num: 100, den: 1 }) == Some(100int),
        spec_quantity_grams("cord"@, Rational { num: 95, den: 1 }) == Some(95int),
        spec_quantity_grams("fibre_dust"@, Rational { num: 5, den: 1 }) == Some(5int),
        spec_quantity_grams("hatchet"@, Rational { num: 1, den: 1 }) == Some(2900int),
        spec_quantity_grams("trim_waste"@, Rational { num: 395, den: 1 }) == Some(395int),
{
    let t = spec_substances();
    assert(t[5].name@ == "timber"@ && t[5].unit@ == "Mass"@);
    lemma_mass_row(5, Rational { num: 3000, den: 1 });
    assert(t[7].name@ == "haft_blank"@ && t[7].unit@ == "Mass"@);
    lemma_mass_row(7, Rational { num: 2400, den: 1 });
    assert(t[11].name@ == "timber_offcuts"@ && t[11].unit@ == "Mass"@);
    lemma_mass_row(11, Rational { num: 600, den: 1 });
    assert(t[0].name@ == "stone"@ && t[0].unit@ == "Mass"@);
    lemma_mass_row(0, Rational { num: 1000, den: 1 });
    assert(t[8].name@ == "knapped_edge"@ && t[8].unit@ == "Mass"@);
    lemma_mass_row(8, Rational { num: 800, den: 1 });
    assert(t[12].name@ == "stone_flakes"@ && t[12].unit@ == "Mass"@);
    lemma_mass_row(12, Rational { num: 200, den: 1 });
    assert(t[6].name@ == "plant_fibre"@ && t[6].unit@ == "Mass"@);
    lemma_mass_row(6, Rational { num: 100, den: 1 });
    assert(t[9].name@ == "cord"@ && t[9].unit@ == "Mass"@);
    lemma_mass_row(9, Rational { num: 95, den: 1 });
    assert(t[13].name@ == "fibre_dust"@ && t[13].unit@ == "Mass"@);
    lemma_mass_row(13, Rational { num: 5, den: 1 });
    assert(t[14].name@ == "trim_waste"@ && t[14].unit@ == "Mass"@);
    lemma_mass_row(14, Rational { num: 395, den: 1 });
    lemma_hatchet_weighs();
}

/// One hatchet, the table's one counted good, weighs its declared unit mass.
proof fn lemma_hatchet_weighs()
    ensures
        spec_quantity_grams("hatchet"@, Rational { num: 1, den: 1 }) == Some(2900int),
{
    crate::materials::schema::lemma_every_substance_found();
    let t = spec_substances();
    let h = t[10];
    assert(h.name@ == "hatchet"@);
    assert(spec_substance(h.name@) == Some(h));
    reveal_strlit("Mass");
    reveal_strlit("Volume");
    reveal_strlit("Count");
    assert(h.unit@ == "Count"@);
    assert(h.unit@ != "Mass"@ && h.unit@ != "Volume"@);
    assert(crate::materials::schema::spec_unit_named(h.unit@) == Some(Unit::Count));
    assert(h.unit_mass.num == 2900 && h.unit_mass.den == 1);
    assert(crate::materials::schema::gram_fraction(Unit::Count, h, Rational { num: 1, den: 1 }) == (2900int, 1int));
    assert(2900int % 1 == 0 && 2900int / 1 == 2900) by (nonlinear_arith);
}

/// The shipped table meets the premises of the plan laws: each of its transformations
/// balances to the gram, and each input of each of its processes weighs something.
pub proof fn lemma_shipped_table_balances()
    ensures
        transformations_balance(spec_processes()),
        table_inputs_weigh(spec_processes()),
{
    lemma_shipped_quantities();
    reveal_with_fuel(crate::materials::schema::side_total_upto, 4);
    let ps = spec_processes();
    assert forall|k: int| 0 <= k < ps.len() && (#[trigger] ps[k]).inputs@.len() > 0 implies crate::materials::schema::spec_balances(ps[k]) by {
        assert(k == 1 || k == 3 || k == 5 || k == 6);
    }
    assert forall|k: int| 0 <= k < ps.len() implies inputs_weigh((#[trigger] ps[k]).inputs@) by {
    }
}

/// The law of a plan drawn against a table whose transformations balance and whose inputs
/// each weigh something: when the plan is made, every step balances (it takes in what it
/// gives out, or it is a gather whose leaf the plan holds), and when anything was asked for
/// the world gives up at least one leaf for it.
pub proof fn law_a_plan_balances_step_by_step(processes: Seq<Process>, substance: Seq<char>, grams: i64)
    requires
        transformations_balance(processes),
        table_inputs_weigh(processes),
    ensures
        spec_reduce(processes, substance, grams as int, asked(substance, grams), Seq::empty()) matches Reduced::Done(plan) ==> {
            &&& steps_balance(plan)
            &&& grams > 0 ==> plan.leaves.len() > 0
        },
{
    lemma_reduce_keeps(processes, substance, grams as int, asked(substance, grams), Seq::empty());
}

/// The law of a plan's order: the work comes dependencies first. Every step runs a process
/// of the table, and each input of it that weighs something is in hand before the step:
/// the world gives it up as a leaf, or an earlier step runs its producer. And what was
/// asked for, when it was more than nothing, is in hand at the end.
pub proof fn law_makers_come_before_their_users(processes: Seq<Process>, substance: Seq<char>, grams: i64)
    ensures
        spec_reduce(processes, substance, grams as int, asked(substance, grams), Seq::empty()) matches Reduced::Done(plan) ==> {
            &&& steps_fed(processes, plan)
            &&& grams > 0 ==> made_in(processes, plan, substance, plan.steps.len() as int)
        },
{
    lemma_reduce_keeps(processes, substance, grams as int, asked(substance, grams), Seq::empty());
}

/// The grams a plan's lines hold, together.
pub open spec fn lines_total(lines: Seq<(&'static str, i64)>) -> int
    decreases lines.len(),
{
    if lines.len() == 0 {
        0
    } else {
        lines_total(lines.drop_last()) + lines.last().1
    }
}

/// The grams of a plan's leaves the ground gives up by extraction.
pub open spec fn extracted_total(leaves: Seq<Leaf>) -> int
    decreases leaves.len(),
{
    if leaves.len() == 0 {
        0
    } else {
        extracted_total(leaves.drop_last()) + if leaves.last().route == Route::Extract {
            leaves.last().grams as int
        } else {
            0
        }
    }
}

/// The grams a plan's steps take in, together.
pub open spec fn steps_in(steps: Seq<Step>) -> int
    decreases steps.len(),
{
    if steps.len() == 0 {
        0
    } else {
        steps_in(steps.drop_last()) + steps.last().input_g
    }
}

/// The grams a plan's steps give out, together.
pub open spec fn steps_out(steps: Seq<Step>) -> int
    decreases steps.len(),
{
    if steps.len() == 0 {
        0
    } else {
        steps_out(steps.drop_last()) + steps.last().output_g
    }
}

/// What a plan has brought in and not yet put anywhere: what the ground gives up and the
/// steps turn out, less what the steps take in, the surplus and the by-products.
pub open spec fn unplaced(plan: PlanModel) -> int {
    extracted_total(plan.leaves) + steps_out(plan.steps) - steps_in(plan.steps) - lines_total(plan.surplus)
        - lines_total(plan.by_products)
}

/// The grams of row `m` of one side of a process, or nothing where it does not reach grams.
pub open spec fn row_grams(side: Seq<(&'static str, Rational)>, m: int) -> int {
    match spec_quantity_grams(side[m].0@, side[m].1) {
        Some(q) => q,
        None => 0,
    }
}

/// The grams of the rows of one side of a process from row `k` on.
pub open spec fn rows_from(side: Seq<(&'static str, Rational)>, k: int) -> int
    decreases side.len() - k,
{
    if k >= side.len() || k < 0 {
        0
    } else {
        row_grams(side, k) + rows_from(side, k + 1)
    }
}

/// The grams of the rows of one side from row `k` on that do not carry `name`.
pub open spec fn others_from(side: Seq<(&'static str, Rational)>, k: int, name: Seq<char>) -> int
    decreases side.len() - k,
{
    if k >= side.len() || k < 0 {
        0
    } else {
        (if side[k].0@ == name {
            0
        } else {
            row_grams(side, k)
        }) + others_from(side, k + 1, name)
    }
}

/// Whether no two outputs of any process of a table carry one name.
pub open spec fn outputs_distinct(processes: Seq<Process>) -> bool {
    forall|k: int, i: int, j: int|
        #![trigger processes[k].outputs@[i], processes[k].outputs@[j]]
        0 <= k < processes.len() && 0 <= i < j < processes[k].outputs@.len()
            ==> processes[k].outputs@[i].0@ != processes[k].outputs@[j].0@
}

/// Whether every gather of a table (a process that takes nothing in) gives out one thing.
pub open spec fn gathers_single(processes: Seq<Process>) -> bool {
    forall|k: int| 0 <= k < processes.len() && (#[trigger] processes[k]).inputs@.len() == 0 ==> processes[k].outputs@.len() == 1
}

proof fn lemma_lines_total_update(lines: Seq<(&'static str, i64)>, k: int, v: (&'static str, i64))
    requires
        0 <= k < lines.len(),
    ensures
        lines_total(lines.update(k, v)) == lines_total(lines) - lines[k].1 + v.1,
    decreases lines.len(),
{
    let u = lines.update(k, v);
    if k < lines.len() - 1 {
        assert(u.drop_last() =~= lines.drop_last().update(k, v));
        lemma_lines_total_update(lines.drop_last(), k, v);
    } else {
        assert(u.drop_last() =~= lines.drop_last());
    }
}

/// Adding grams to a named line adds them to the lines' total.
proof fn lemma_add_total(lines: Seq<(&'static str, i64)>, name: &'static str, grams: int)
    ensures
        spec_add(lines, name, grams) matches Some(after) ==> lines_total(after) == lines_total(lines) + grams,
{
    if grams != 0 {
        let k = first_of(lines, line_named(name@));
        lemma_first_upto(lines, line_named(name@), lines.len() as int);
        if k < 0 {
            assert(lines.push((name, grams as i64)).drop_last() =~= lines);
        } else {
            lemma_lines_total_update(lines, k, (lines[k].0, (lines[k].1 + grams) as i64));
        }
    }
}

/// A side's grams, where they can be counted, are the grams of its rows.
proof fn lemma_side_total_rows(side: Seq<(&'static str, Rational)>, n: int)
    requires
        0 <= n <= side.len(),
    ensures
        crate::materials::schema::side_total_upto(side, n) matches Some(t) ==> t + rows_from(side, n) == rows_from(side, 0),
    decreases n,
{
    if n > 0 {
        lemma_side_total_rows(side, n - 1);
        assert(rows_from(side, n - 1) == row_grams(side, n - 1) + rows_from(side, n));
    }
}

/// With one row carrying `name`, a side's rows are that row and the others.
proof fn lemma_rows_split(side: Seq<(&'static str, Rational)>, k: int, name: Seq<char>, t: int)
    requires
        0 <= k <= side.len(),
        0 <= t < side.len(),
        side[t].0@ == name,
        forall|i: int, j: int| 0 <= i < j < side.len() ==> side[i].0@ != side[j].0@,
    ensures
        rows_from(side, k) == others_from(side, k, name) + if t >= k {
            row_grams(side, t)
        } else {
            0
        },
    decreases side.len() - k,
{
    if k < side.len() {
        lemma_rows_split(side, k + 1, name, t);
        if k != t {
            if k < t {
                assert(side[k].0@ != side[t].0@);
            } else {
                assert(side[t].0@ != side[k].0@);
            }
        }
    }
}

/// The by-products of `runs` runs are, together, the runs times what the rows other than the
/// target give out.
proof fn lemma_by_products_total(
    outputs: Seq<(&'static str, Rational)>,
    k: int,
    declared: Seq<char>,
    runs: int,
    lines: Seq<(&'static str, i64)>,
)
    requires
        0 <= k,
    ensures
        spec_by_products(outputs, k, declared, runs, lines) matches Ok(after) ==> lines_total(after)
            == lines_total(lines) + runs * others_from(outputs, k, declared),
    decreases outputs.len() - k,
{
    if k < outputs.len() {
        if outputs[k].0@ == declared {
            lemma_by_products_total(outputs, k + 1, declared, runs, lines);
        } else {
            match spec_quantity_grams(outputs[k].0@, outputs[k].1) {
                None => {},
                Some(q) => {
                    if fits_i64(q * runs) {
                        lemma_add_total(lines, outputs[k].0, q * runs);
                        match spec_add(lines, outputs[k].0, q * runs) {
                            None => {},
                            Some(next) => {
                                lemma_by_products_total(outputs, k + 1, declared, runs, next);
                                let rest = others_from(outputs, k + 1, declared);
                                assert(runs * (q + rest) == q * runs + runs * rest) by (nonlinear_arith);
                            },
                        }
                    }
                },
            }
        }
    }
}

/// One reduction places what it was asked for and nothing more: what it leaves unplaced
/// grows by exactly the grams wanted, where the table's outputs carry distinct names, its
/// gathers give out one thing and its inputs weigh something.
proof fn lemma_reduce_accounts(
    processes: Seq<Process>,
    substance: Seq<char>,
    grams: int,
    plan: PlanModel,
    stack: Seq<Seq<char>>,
)
    requires
        fits_i64(grams),
        outputs_distinct(processes),
        gathers_single(processes),
        table_inputs_weigh(processes),
    ensures
        spec_reduce(processes, substance, grams, plan, stack) matches Reduced::Done(after) ==> unplaced(after)
            == unplaced(plan) + if grams > 0 {
            grams
        } else {
            0
        },
    decreases SUBSTANCES_LEN - stack.len(), 0int, 1int,
{
    if grams <= 0 {
        return;
    }
    match spec_substance(substance) {
        None => {},
        Some(entry) => {
            let declared = entry.name;
            lemma_substance_found(substance);
            lemma_producer_in(processes, declared@);
            match spec_producer(processes, declared@) {
                Some(process) => {
                    let k = choose|k: int| 0 <= k < processes.len() && #[trigger] processes[k] == process;
                    if process.inputs@.len() > 0 {
                        if !(stack.contains(declared@) || stack.len() >= SUBSTANCES_LEN) {
                            lemma_transform_accounts(processes, k, entry, grams, plan, stack);
                        }
                    } else {
                        lemma_gather_accounts(processes, k, declared, grams, plan);
                    }
                },
                None => {
                    let after = PlanModel {
                        leaves: plan.leaves.push(
                            Leaf { substance: declared, grams: grams as i64, route: Route::Extract, process: None },
                        ),
                        ..plan
                    };
                    assert(after.leaves.drop_last() =~= plan.leaves);
                },
            }
        },
    }
}

/// A gather places what it was asked for: its step turns out the runs, the surplus takes
/// what the runs make beyond the want.
proof fn lemma_gather_accounts(processes: Seq<Process>, k: int, declared: &'static str, grams: int, plan: PlanModel)
    requires
        0 <= k < processes.len(),
        processes[k].inputs@.len() == 0,
        gathers_single(processes),
        grams > 0,
    ensures
        spec_gather(processes[k], declared, grams, plan) matches Reduced::Done(after) ==> unplaced(after)
            == unplaced(plan) + grams,
{
    let process = processes[k];
    if spec_gather(process, declared, grams, plan) is Done {
        let after = spec_gather(process, declared, grams, plan)->Done_0;
        let per_run = spec_output_grams(process, declared@)->0;
        let runs = spec_runs(grams, per_run);
        let surplus = spec_add(plan.surplus, declared, runs * per_run - grams)->0;
        lemma_add_total(plan.surplus, declared, runs * per_run - grams);
        let outputs = process.outputs@;
        assert(outputs.len() == 1);
        lemma_first_upto(outputs, output_named(declared@), outputs.len() as int);
        assert(first_of(outputs, output_named(declared@)) == 0);
        assert(outputs[0].0@ == declared@);
        reveal_with_fuel(crate::materials::schema::side_total_upto, 2);
        assert(side_total(outputs) == Some(per_run));
        assert(after.leaves.drop_last() =~= plan.leaves);
        assert(after.steps.drop_last() =~= plan.steps);
        assert(after.leaves.last().route == Route::Gather);
        assert(after.steps.last().input_g == 0);
        assert(per_run * runs == runs * per_run) by (nonlinear_arith);
        assert(after.steps.last().output_g == per_run * runs);
        assert(after.surplus == surplus);
        assert(after.by_products == plan.by_products);
    }
}

/// A transformation places what it was asked for: its inputs are placed in its step, its step
/// turns them out as the target and the by-products, and the surplus takes what the runs make
/// beyond the want.
proof fn lemma_transform_accounts(
    processes: Seq<Process>,
    k: int,
    entry: Substance,
    grams: int,
    plan: PlanModel,
    stack: Seq<Seq<char>>,
)
    requires
        0 <= k < processes.len(),
        grams > 0,
        spec_substance(entry.name@) == Some(entry),
        spec_producer(processes, entry.name@) == Some(processes[k]),
        processes[k].inputs@.len() > 0,
        !stack.contains(entry.name@),
        stack.len() < SUBSTANCES_LEN,
        outputs_distinct(processes),
        gathers_single(processes),
        table_inputs_weigh(processes),
    ensures
        spec_reduce(processes, entry.name@, grams, plan, stack) matches Reduced::Done(after) ==> unplaced(after)
            == unplaced(plan) + grams,
    decreases SUBSTANCES_LEN - stack.len(), 0int, 0int,
{
    let process = processes[k];
    let declared = entry.name;
    lemma_substance_found(entry.name@);
    match spec_output_grams(process, declared@) {
        None => {},
        Some(per_run) => {
            if per_run > 0 && fits_i64(spec_runs(grams, per_run) * per_run) {
                let runs = spec_runs(grams, per_run);
                lemma_runs_positive(grams, per_run);
                match spec_add(plan.surplus, declared, runs * per_run - grams) {
                    None => {},
                    Some(surplus) => {
                        lemma_add_total(plan.surplus, declared, runs * per_run - grams);
                        let start = PlanModel { surplus, ..plan };
                        let pushed = stack.push(declared@);
                        assert(inputs_weigh(processes[k].inputs@));
                        lemma_reduce_inputs_accounts(processes, process.inputs@, 0, runs, start, pushed);
                        match spec_reduce_inputs(processes, process.inputs@, 0, runs, start, pushed) {
                            Reduced::Refused(_) => {},
                            Reduced::Done(after) => {
                                lemma_by_products_total(process.outputs@, 0, declared@, runs, after.by_products);
                                match spec_by_products(process.outputs@, 0, declared@, runs, after.by_products) {
                                    Err(_) => {},
                                    Ok(by_products) => {
                                        let mid = PlanModel { by_products, ..after };
                                        if spec_finish_step(process, runs, mid) is Done {
                                            let done = spec_finish_step(process, runs, mid)->Done_0;
                                            let input = side_total(process.inputs@)->0;
                                            let output = side_total(process.outputs@)->0;
                                            lemma_side_total_rows(process.inputs@, process.inputs@.len() as int);
                                            lemma_side_total_rows(process.outputs@, process.outputs@.len() as int);
                                            let outputs = process.outputs@;
                                            lemma_first_upto(outputs, output_named(declared@), outputs.len() as int);
                                            let t = first_of(outputs, output_named(declared@));
                                            assert(outputs[t].0@ == declared@);
                                            assert forall|i: int, j: int| 0 <= i < j < outputs.len() implies outputs[i].0@ != outputs[j].0@ by {
                                                assert(processes[k].outputs@[i].0@ != processes[k].outputs@[j].0@);
                                            }
                                            lemma_rows_split(outputs, 0, declared@, t);
                                            assert(row_grams(outputs, t) == per_run);
                                            assert(done.steps.drop_last() =~= after.steps);
                                            let others = others_from(outputs, 0, declared@);
                                            assert(runs * (others + per_run) == runs * others + runs * per_run) by (nonlinear_arith);
                                            assert(input * runs == runs * input) by (nonlinear_arith);
                                            assert(output * runs == runs * output) by (nonlinear_arith);
                                        }
                                    },
                                }
                            },
                        }
                    },
                }
            }
        },
    }
}

/// Reducing the inputs of `runs` runs of a process places, in all, the runs times what the
/// inputs from row `k` on weigh.
proof fn lemma_reduce_inputs_accounts(
    processes: Seq<Process>,
    inputs: Seq<(&'static str, Rational)>,
    k: int,
    runs: int,
    plan: PlanModel,
    stack: Seq<Seq<char>>,
)
    requires
        runs > 0,
        0 <= k,
        inputs_weigh(inputs),
        outputs_distinct(processes),
        gathers_single(processes),
        table_inputs_weigh(processes),
    ensures
        spec_reduce_inputs(processes, inputs, k, runs, plan, stack) matches Reduced::Done(after) ==> unplaced(after)
            == unplaced(plan) + runs * rows_from(inputs, k),
    decreases SUBSTANCES_LEN - stack.len(), 1int, inputs.len() - k,
{
    if k >= inputs.len() {
        return;
    }
    match spec_quantity_grams(inputs[k].0@, inputs[k].1) {
        None => {},
        Some(q) => {
            if fits_i64(q * runs) {
                let row = inputs[k];
                assert(q > 0);
                assert(q * runs > 0) by (nonlinear_arith)
                    requires
                        q > 0,
                        runs > 0,
                ;
                lemma_reduce_accounts(processes, inputs[k].0@, q * runs, plan, stack);
                match spec_reduce(processes, inputs[k].0@, q * runs, plan, stack) {
                    Reduced::Refused(_) => {},
                    Reduced::Done(next) => {
                        lemma_reduce_inputs_accounts(processes, inputs, k + 1, runs, next, stack);
                        let rest = rows_from(inputs, k + 1);
                        assert(rows_from(inputs, k) == q + rest);
                        assert(runs * (q + rest) == q * runs + runs * rest) by (nonlinear_arith);
                    },
                }
            }
        },
    }
}

/// The law of a plan's mass: against a table whose processes' outputs carry distinct names,
/// whose gathers give out one thing and whose inputs weigh something, everything a plan's
/// extractions and steps turn out is placed, gram for gram: in what was asked for, in the
/// next step's input, in the surplus or in the by-products. Each step's by-products are its
/// runs times the process's outputs other than the target.
pub proof fn law_a_plan_places_every_gram(processes: Seq<Process>, substance: Seq<char>, grams: i64)
    requires
        outputs_distinct(processes),
        gathers_single(processes),
        table_inputs_weigh(processes),
    ensures
        spec_reduce(processes, substance, grams as int, asked(substance, grams), Seq::empty()) matches Reduced::Done(plan)
            ==> extracted_total(plan.leaves) + steps_out(plan.steps) == (if grams > 0 {
            grams as int
        } else {
            0
        }) + steps_in(plan.steps) + lines_total(plan.surplus) + lines_total(plan.by_products),
{
    lemma_reduce_accounts(processes, substance, grams as int, asked(substance, grams), Seq::empty());
}

/// The shipped table's processes give out distinctly named outputs, and its gathers one each.
pub proof fn lemma_shipped_outputs()
    ensures
        outputs_distinct(spec_processes()),
        gathers_single(spec_processes()),
{
    reveal_strlit("haft_blank");
    reveal_strlit("timber_offcuts");
    reveal_strlit("knapped_edge");
    reveal_strlit("stone_flakes");
    reveal_strlit("cord");
    reveal_strlit("fibre_dust");
    reveal_strlit("hatchet");
    reveal_strlit("trim_waste");
    let ps = spec_processes();
    assert("knapped_edge"@[0] != "stone_flakes"@[0]);
    assert forall|k: int, i: int, j: int|
        #![trigger ps[k].outputs@[i], ps[k].outputs@[j]]
        0 <= k < ps.len() && 0 <= i < j < ps[k].outputs@.len() implies ps[k].outputs@[i].0@ != ps[k].outputs@[j].0@ by {
        assert(k == 1 || k == 3 || k == 5 || k == 6);
        assert(i == 0 && j == 1);
        if k == 1 {
            assert(ps[k].outputs@[0].0@ == "haft_blank"@ && ps[k].outputs@[1].0@ == "timber_offcuts"@);
        } else if k == 3 {
            assert(ps[k].outputs@[0].0@ == "knapped_edge"@ && ps[k].outputs@[1].0@ == "stone_flakes"@);
        } else if k == 5 {
            assert(ps[k].outputs@[0].0@ == "cord"@ && ps[k].outputs@[1].0@ == "fibre_dust"@);
        } else {
            assert(ps[k].outputs@[0].0@ == "hatchet"@ && ps[k].outputs@[1].0@ == "trim_waste"@);
        }
    }
}

/// The law of the shipped table: every plan drawn against it balances step by step, does
/// its work dependencies first and, when anything was asked for, takes at least one leaf
/// from the world and ends with what was asked for in hand.
pub proof fn law_shipped_plans_balance_and_come_in_order(substance: Seq<char>, grams: i64)
    ensures
        spec_reduce(spec_processes(), substance, grams as int, asked(substance, grams), Seq::empty()) matches Reduced::Done(plan) ==> {
            &&& steps_balance(plan)
            &&& steps_fed(spec_processes(), plan)
            &&& grams > 0 ==> plan.leaves.len() > 0 && made_in(spec_processes(), plan, substance, plan.steps.len() as int)
        },
{
    lemma_shipped_table_balances();
    law_a_plan_balances_step_by_step(spec_processes(), substance, grams);
    law_makers_come_before_their_users(spec_processes(), substance, grams);
}

/// The names of the first `n` declared substances whose unit is a count.
pub open spec fn counted_upto(n: int) -> Seq<&'static str>
    decreases n,
{
    if n <= 0 {
        Seq::empty()
    } else if spec_substances()[n - 1].unit@ == spec_unit_name(Unit::Count) {
        counted_upto(n - 1).push(spec_substances()[n - 1].name)
    } else {
        counted_upto(n - 1)
    }
}

/// The substances whose declared unit is a count: the goods a person reads as objects.
pub fn counted_goods() -> (r: Vec<&'static str>)
    ensures
        r@ == counted_upto(SUBSTANCES_LEN as int),
{
    let mut out: Vec<&'static str> = Vec::new();
    let mut i: usize = 0;
    while i < SUBSTANCES_LEN
        invariant
            i <= SUBSTANCES_LEN,
            out@ == counted_upto(i as int),
        decreases SUBSTANCES_LEN - i,
    {
        let entry = substances_row(i);
        if same(entry.unit, Unit::Count.name()) {
            out.push(entry.name);
        }
        i += 1;
    }
    out
}

/// What a process produces, as (substance, process) pairs in output order.
pub open spec fn outputs_of() -> spec_fn(Process) -> Seq<(&'static str, &'static str)> {
    |process: Process|
        process.outputs@.map_values(|row: (&'static str, Rational)| (row.0, process.name))
}

/// Every (substance, process) pair the table declares, in table order.
pub open spec fn production() -> Seq<(&'static str, &'static str)> {
    each_of(spec_processes(), outputs_of())
}

/// The process the last pair naming a substance gives, if any pair names it.
pub open spec fn producer_in(pairs: Seq<(&'static str, &'static str)>, name: Seq<char>) -> Option<
    &'static str,
>
    decreases pairs.len(),
{
    if pairs.len() == 0 {
        None
    } else if pairs.last().0@ == name {
        Some(pairs.last().1)
    } else {
        producer_in(pairs.drop_last(), name)
    }
}

/// A listing sorted strictly by its names, byte by byte: so no name appears twice.
pub open spec fn sorted_by_name(m: Seq<(&'static str, &'static str)>) -> bool {
    forall|i: int, j: int| 0 <= i < j < m.len() ==> text_lt(#[trigger] m[i].0@, #[trigger] m[j].0@)
}

/// A sorted listing that carries, for every name the pairs give, the last process that
/// gives it, and nothing else.
pub open spec fn lists_producers(
    m: Seq<(&'static str, &'static str)>,
    pairs: Seq<(&'static str, &'static str)>,
) -> bool {
    &&& sorted_by_name(m)
    &&& forall|i: int| 0 <= i < m.len() ==> producer_in(pairs, #[trigger] m[i].0@) == Some(m[i].1)
    &&& forall|k: Seq<char>| #[trigger]
        producer_in(pairs, k) is Some ==> exists|i: int| 0 <= i < m.len() && m[i].0@ == k
}

/// Two different positions of a sorted listing carry different names.
proof fn lemma_sorted_distinct(m: Seq<(&'static str, &'static str)>, i: int, j: int)
    requires
        sorted_by_name(m),
        0 <= i < m.len(),
        0 <= j < m.len(),
        i != j,
    ensures
        m[i].0@ != m[j].0@,
{
    lemma_text_order(m[i].0@, m[j].0@, m[j].0@);
    lemma_text_order(m[j].0@, m[i].0@, m[i].0@);
}

/// Where a name belongs in a sorted listing: past every name that comes before it.
fn position(m: &Vec<(&'static str, &'static str)>, name: &str) -> (q: usize)
    ensures
        q <= m@.len(),
        forall|i: int| 0 <= i < q ==> text_lt(#[trigger] m@[i].0@, name@),
        q < m@.len() ==> !text_lt(m@[q as int].0@, name@),
{
    let mut q: usize = 0;
    while q < m.len()
        invariant
            q <= m@.len(),
            forall|i: int| 0 <= i < q ==> text_lt(#[trigger] m@[i].0@, name@),
        decreases m@.len() - q,
    {
        if !before(m[q].0, name) {
            return q;
        }
        q += 1;
    }
    q
}

/// Record that `process` produces `name`, keeping the listing sorted: a name already
/// listed takes the new process, a new name goes in its place.
#[verifier::rlimit(40)]
fn record_producer(
    m: &mut Vec<(&'static str, &'static str)>,
    name: &'static str,
    process: &'static str,
)
    requires
        sorted_by_name(old(m)@),
    ensures
        sorted_by_name(final(m)@),
        exists|i: int| 0 <= i < final(m)@.len() && final(m)@[i].0@ == name@ && final(m)@[i].1 == process,
        forall|i: int|
            0 <= i < final(m)@.len() && #[trigger] final(m)@[i].0@ == name@ ==> final(m)@[i].1 == process,
        forall|i: int|
            0 <= i < final(m)@.len() && #[trigger] final(m)@[i].0@ != name@ ==> exists|j: int|
                0 <= j < old(m)@.len() && old(m)@[j].0@ == final(m)@[i].0@ && old(m)@[j].1 == final(m)@[i].1,
        forall|j: int|
            0 <= j < old(m)@.len() && #[trigger] old(m)@[j].0@ != name@ ==> exists|i: int|
                0 <= i < final(m)@.len() && final(m)@[i].0@ == old(m)@[j].0@ && final(m)@[i].1 == old(m)@[j].1,
{
    let q = position(m, name);
    let ghost old_m = m@;
    if q < m.len() && same(m[q].0, name) {
        m.set(q, (name, process));
        proof {
            assert forall|i: int, j: int| 0 <= i < j < m@.len() implies text_lt(
                #[trigger] m@[i].0@,
                #[trigger] m@[j].0@,
            ) by {
                assert(old_m[i].0@ == m@[i].0@);
                assert(old_m[j].0@ == m@[j].0@);
            }
            assert(m@[q as int].0@ == name@);
            assert forall|i: int|
                0 <= i < m@.len() && #[trigger] m@[i].0@ == name@ implies m@[i].1 == process by {
                if i != q {
                    lemma_sorted_distinct(old_m, i, q as int);
                }
            }
            assert forall|i: int|
                0 <= i < m@.len() && #[trigger] m@[i].0@ != name@ implies exists|j: int|
                    0 <= j < old_m.len() && old_m[j].0@ == m@[i].0@ && old_m[j].1 == m@[i].1 by {
                assert(i != q);
                assert(old_m[i] == m@[i]);
            }
            assert forall|j: int|
                0 <= j < old_m.len() && #[trigger] old_m[j].0@ != name@ implies exists|i: int|
                    0 <= i < m@.len() && m@[i].0@ == old_m[j].0@ && m@[i].1 == old_m[j].1 by {
                assert(j != q);
                assert(old_m[j] == m@[j]);
            }
        }
    } else {
        proof {
            if q < old_m.len() {
                assert(old_m[q as int].0@ != name@);
                lemma_text_order(name@, old_m[q as int].0@, old_m[q as int].0@);
                assert(text_lt(name@, old_m[q as int].0@));
            }
        }
        m.insert(q, (name, process));
        proof {
            let x = (name, process);
            assert(m@ == old_m.insert(q as int, x));
            assert forall|i: int| 0 <= i < m@.len() implies #[trigger] m@[i] == if i < q {
                old_m[i]
            } else if i == q {
                x
            } else {
                old_m[i - 1]
            } by {}
            assert forall|i: int, j: int| 0 <= i < j < m@.len() implies text_lt(
                #[trigger] m@[i].0@,
                #[trigger] m@[j].0@,
            ) by {
                if j < q {
                } else if j == q {
                    assert(text_lt(old_m[i].0@, name@));
                } else if i < q {
                    assert(text_lt(old_m[i].0@, name@));
                    assert(text_lt(name@, old_m[q as int].0@));
                    if j - 1 != q {
                        assert(text_lt(old_m[q as int].0@, old_m[j - 1].0@));
                        lemma_text_order(name@, old_m[q as int].0@, old_m[j - 1].0@);
                    }
                    lemma_text_order(old_m[i].0@, name@, old_m[j - 1].0@);
                } else if i == q {
                    assert(text_lt(name@, old_m[q as int].0@));
                    if j - 1 != q {
                        assert(text_lt(old_m[q as int].0@, old_m[j - 1].0@));
                        lemma_text_order(name@, old_m[q as int].0@, old_m[j - 1].0@);
                    }
                } else {
                    assert(text_lt(old_m[i - 1].0@, old_m[j - 1].0@));
                }
            }
            assert(m@[q as int] == x);
            assert forall|i: int|
                0 <= i < m@.len() && #[trigger] m@[i].0@ == name@ implies m@[i].1 == process by {
                if i < q {
                    lemma_text_order(name@, name@, name@);
                    assert(text_lt(old_m[i].0@, name@));
                } else if i > q {
                    lemma_text_order(name@, name@, name@);
                    assert(text_lt(name@, old_m[q as int].0@));
                    if i - 1 != q {
                        assert(text_lt(old_m[q as int].0@, old_m[i - 1].0@));
                        lemma_text_order(name@, old_m[q as int].0@, old_m[i - 1].0@);
                    }
                }
            }
            assert forall|i: int|
                0 <= i < m@.len() && #[trigger] m@[i].0@ != name@ implies exists|j: int|
                    0 <= j < old_m.len() && old_m[j].0@ == m@[i].0@ && old_m[j].1 == m@[i].1 by {
                if i < q {
                    assert(old_m[i] == m@[i]);
                } else {
                    assert(i != q);
                    assert(old_m[i - 1] == m@[i]);
                }
            }
            assert forall|j: int|
                0 <= j < old_m.len() && #[trigger] old_m[j].0@ != name@ implies exists|i: int|
                    0 <= i < m@.len() && m@[i].0@ == old_m[j].0@ && m@[i].1 == old_m[j].1 by {
                if j < q {
                    assert(old_m[j] == m@[j]);
                } else {
                    assert(old_m[j] == m@[j + 1]);
                }
            }
        }
    }
}

/// One more pair: the listing after recording it lists the producers of the longer run.
proof fn lemma_record_lists(
    before: Seq<(&'static str, &'static str)>,
    after: Seq<(&'static str, &'static str)>,
    pairs: Seq<(&'static str, &'static str)>,
    name: &'static str,
    process: &'static str,
)
    requires
        lists_producers(before, pairs),
        sorted_by_name(after),
        exists|i: int| 0 <= i < after.len() && after[i].0@ == name@ && after[i].1 == process,
        forall|i: int|
            0 <= i < after.len() && #[trigger] after[i].0@ == name@ ==> after[i].1 == process,
        forall|i: int|
            0 <= i < after.len() && #[trigger] after[i].0@ != name@ ==> exists|j: int|
                0 <= j < before.len() && before[j].0@ == after[i].0@ && before[j].1 == after[i].1,
        forall|j: int|
            0 <= j < before.len() && #[trigger] before[j].0@ != name@ ==> exists|i: int|
                0 <= i < after.len() && after[i].0@ == before[j].0@ && after[i].1 == before[j].1,
    ensures
        lists_producers(after, pairs.push((name, process))),
{
    let longer = pairs.push((name, process));
    assert(longer.drop_last() =~= pairs);
    assert forall|i: int| 0 <= i < after.len() implies producer_in(longer, #[trigger] after[i].0@)
        == Some(after[i].1) by {
        if after[i].0@ != name@ {
            let j = choose|j: int|
                0 <= j < before.len() && before[j].0@ == after[i].0@ && before[j].1 == after[i].1;
            assert(producer_in(pairs, before[j].0@) == Some(before[j].1));
        }
    }
    assert forall|k: Seq<char>| #[trigger] producer_in(longer, k) is Some implies exists|i: int|
        0 <= i < after.len() && after[i].0@ == k by {
        if k != name@ {
            assert(producer_in(pairs, k) is Some);
            let j = choose|j: int| 0 <= j < before.len() && before[j].0@ == k;
            assert(before[j].0@ != name@);
            let i = choose|i: int|
                0 <= i < after.len() && after[i].0@ == before[j].0@ && after[i].1 == before[j].1;
            assert(after[i].0@ == k);
        }
    }
}

/// Every substance a process can produce, with the process that produces it, sorted by
/// name: where several processes produce one substance, the last one declared is listed.
pub fn producible() -> (r: Vec<(&'static str, &'static str)>)
    ensures
        lists_producers(r@, production()),
{
    let table = processes();
    let mut m: Vec<(&'static str, &'static str)> = Vec::new();
    let mut i: usize = 0;
    while i < table.len()
        invariant
            i <= table@.len(),
            table@ == spec_processes(),
            lists_producers(m@, each_of(spec_processes().take(i as int), outputs_of())),
        decreases table@.len() - i,
    {
        proof {
            lemma_each_of_step(spec_processes(), outputs_of(), i as int);
        }
        let process = table[i];
        let ghost done = each_of(spec_processes().take(i as int), outputs_of());
        let ghost rows = outputs_of()(process);
        let mut j: usize = 0;
        while j < process.outputs.len()
            invariant
                j <= process.outputs@.len(),
                rows == process.outputs@.map_values(
                    |row: (&'static str, Rational)| (row.0, process.name),
                ),
                lists_producers(m@, done + rows.take(j as int)),
            decreases process.outputs@.len() - j,
        {
            let name = process.outputs[j].0;
            let ghost before = m@;
            record_producer(&mut m, name, process.name);
            proof {
                lemma_record_lists(before, m@, done + rows.take(j as int), name, process.name);
                assert(done + rows.take(j as int + 1) =~= (done + rows.take(j as int)).push(
                    (name, process.name),
                ));
            }
            j += 1;
        }
        proof {
            lemma_take_all(rows);
        }
        i += 1;
    }
    proof {
        lemma_take_all(spec_processes());
    }
    m
}

} // verus!
