//! The substance and process tables, typed, with the campaign's one invariant checked
//! where it is used.
//!
//! * **Every substance declares a unit**, and reaches grams exactly: mass is grams, volume
//!   multiplies by a declared density, a count by a declared unit mass. [`grams`] returns
//!   `None` rather than rounding, because a conversion that rounds is where a ledger stops
//!   balancing quietly.
//! * **Every process balances**, and [`process_totals`] reports both sides so a failure
//!   can quote them. A process with **no inputs** is a gather, and [`verify`] refuses one
//!   whose output is `made`: material from nothing is the one thing this table refuses.
use vstd::prelude::*;

use crate::exact::{exact_quotient, fits_i64};
use crate::lookup::{
    each_of, first_of, first_upto, is_listed, lemma_each_of_append, lemma_each_of_step,
    lemma_first_upto,
    lemma_take_all, listed,
};
use crate::materials::chain::{asked, plan, refusal_text, spec_reduce, Reduced};
use crate::materials::generated::{
    icon_family_names, processes, processes_row, schema_open, skills, spec_icon_family_names,
    spec_processes, spec_schema_open, spec_skills, spec_structures, spec_substances, spec_tiers,
    spec_tools, spec_world_family_names, structures, substances, substances_row, tiers_row, tools,
    world_family_names, Process, Rational, Substance, PROCESSES_LEN, SUBSTANCES_LEN, TIERS_LEN,
};
use crate::materials::{after_all, lemma_after_all_append, Finding, Report};
use vstd::string::StrSliceExecFns;
use crate::strings::{
    decimal, decimal_nat, glue, join, joined, same, show_i128, show_i64, show_usize, views,
};

verus! {

/// The canonical unit a substance is counted in. Closed: asking for one that is not
/// declared is `None` rather than a default.
#[derive(Clone, Copy, Debug, PartialEq, Eq, Structural)]
pub enum Unit {
    Mass,
    Volume,
    Count,
    Gas,
}

/// The unit a declared name stands for.
pub open spec fn spec_unit_named(name: Seq<char>) -> Option<Unit> {
    if name == "Mass"@ {
        Some(Unit::Mass)
    } else if name == "Volume"@ {
        Some(Unit::Volume)
    } else if name == "Count"@ {
        Some(Unit::Count)
    } else if name == "Gas"@ {
        Some(Unit::Gas)
    } else {
        None
    }
}

/// The name a unit is declared under.
pub open spec fn spec_unit_name(unit: Unit) -> Seq<char> {
    match unit {
        Unit::Mass => "Mass"@,
        Unit::Volume => "Volume"@,
        Unit::Count => "Count"@,
        Unit::Gas => "Gas"@,
    }
}

impl Unit {
    /// Every unit, in declaration order.
    pub const ALL: [Unit; 4] = [Unit::Mass, Unit::Volume, Unit::Count, Unit::Gas];

    pub fn name(self) -> (r: &'static str)
        ensures
            r@ == spec_unit_name(self),
    {
        match self {
            Unit::Mass => "Mass",
            Unit::Volume => "Volume",
            Unit::Count => "Count",
            Unit::Gas => "Gas",
        }
    }

    /// The unit for a name, or `None`: the refusal case, not a default.
    pub fn named(name: &str) -> (r: Option<Unit>)
        ensures
            r == spec_unit_named(name@),
    {
        if same(name, "Mass") {
            Some(Unit::Mass)
        } else if same(name, "Volume") {
            Some(Unit::Volume)
        } else if same(name, "Count") {
            Some(Unit::Count)
        } else if same(name, "Gas") {
            Some(Unit::Gas)
        } else {
            None
        }
    }

    /// What this unit needs before it can reach grams: a density, or a unit mass.
    pub fn needs(self) -> (r: Option<&'static str>)
        ensures
            match self {
                Unit::Volume | Unit::Gas => r matches Some(n) && n@ == "density"@,
                Unit::Count => r matches Some(n) && n@ == "unit_mass"@,
                Unit::Mass => r is None,
            },
    {
        match self {
            Unit::Volume | Unit::Gas => Some("density"),
            Unit::Count => Some("unit_mass"),
            Unit::Mass => None,
        }
    }
}

/// Every unit answers to its own name, and to no other unit's: the list quotes itself.
pub proof fn unit_names_round_trip(unit: Unit)
    ensures
        spec_unit_named(spec_unit_name(unit)) == Some(unit),
{
    reveal_strlit("Mass");
    reveal_strlit("Volume");
    reveal_strlit("Count");
    reveal_strlit("Gas");
    assert("Mass"@.len() == 4);
    assert("Volume"@.len() == 6);
    assert("Count"@.len() == 5);
    assert("Gas"@.len() == 3);
}

/// Whether a substance row answers to a name.
pub open spec fn substance_named(name: Seq<char>) -> spec_fn(Substance) -> bool {
    |entry: Substance| entry.name@ == name
}

/// The first declared substance with this name.
pub open spec fn spec_substance(name: Seq<char>) -> Option<Substance> {
    let k = first_of(spec_substances(), substance_named(name));
    if k < 0 {
        None
    } else {
        Some(spec_substances()[k])
    }
}

/// Whether a process row answers to a name.
pub open spec fn process_named(name: Seq<char>) -> spec_fn(Process) -> bool {
    |entry: Process| entry.name@ == name
}

/// The first declared process with this name.
pub open spec fn spec_process(name: Seq<char>) -> Option<Process> {
    let k = first_of(spec_processes(), process_named(name));
    if k < 0 {
        None
    } else {
        Some(spec_processes()[k])
    }
}

/// Whether a tier row answers to a name.
pub open spec fn tier_named(name: Seq<char>) -> spec_fn((&'static str, i64, &'static str)) -> bool {
    |entry: (&'static str, i64, &'static str)| entry.0@ == name
}

/// The ordinal of the first declared tier with this name.
pub open spec fn spec_tier_ordinal(name: Seq<char>) -> Option<i64> {
    let k = first_of(spec_tiers(), tier_named(name));
    if k < 0 {
        None
    } else {
        Some(spec_tiers()[k].1)
    }
}

/// One substance, by its declared name.
pub fn substance(name: &str) -> (r: Option<Substance>)
    ensures
        r == spec_substance(name@),
{
    let mut i: usize = 0;
    while i < SUBSTANCES_LEN
        invariant
            i <= SUBSTANCES_LEN,
            first_upto(spec_substances(), substance_named(name@), i as int) == -1,
        decreases SUBSTANCES_LEN - i,
    {
        let row = substances_row(i);
        if same(row.name, name) {
            proof {
                lemma_first_upto(spec_substances(), substance_named(name@), i + 1);
                assert(first_upto(spec_substances(), substance_named(name@), i + 1) == i);
                first_stays(spec_substances(), substance_named(name@), i as int + 1);
            }
            return Some(row);
        }
        i += 1;
    }
    None
}

/// Once the first match is found, looking further does not move it.
pub proof fn first_stays<T>(s: Seq<T>, p: spec_fn(T) -> bool, n: int)
    requires
        0 <= n <= s.len(),
        first_upto(s, p, n) >= 0,
    ensures
        first_upto(s, p, s.len() as int) == first_upto(s, p, n),
    decreases s.len() - n,
{
    if n < s.len() {
        first_stays(s, p, n + 1);
    }
}

/// Every declared substance is found under its own name: no earlier row carries it.
pub proof fn lemma_every_substance_found()
    ensures
        forall|k: int|
            0 <= k < 16 ==> spec_substance(#[trigger] spec_substances()[k].name@) == Some(spec_substances()[k]),
{
    reveal_strlit("stone");
    reveal_strlit("sand");
    reveal_strlit("clay");
    reveal_strlit("coal");
    reveal_strlit("iron_ore");
    reveal_strlit("timber");
    reveal_strlit("plant_fibre");
    reveal_strlit("haft_blank");
    reveal_strlit("knapped_edge");
    reveal_strlit("cord");
    reveal_strlit("hatchet");
    reveal_strlit("timber_offcuts");
    reveal_strlit("stone_flakes");
    reveal_strlit("fibre_dust");
    reveal_strlit("trim_waste");
    reveal_strlit("water");
    let t = spec_substances();
    assert(t[0].name@[0] != t[15].name@[0]);
    assert(t[1].name@[0] != t[2].name@[0]);
    assert(t[1].name@[0] != t[3].name@[0]);
    assert(t[1].name@[0] != t[9].name@[0]);
    assert(t[2].name@[1] != t[3].name@[1]);
    assert(t[2].name@[1] != t[9].name@[1]);
    assert(t[3].name@[2] != t[9].name@[2]);
    assert(t[7].name@[0] != t[13].name@[0]);
    assert(t[7].name@[0] != t[14].name@[0]);
    assert(t[13].name@[0] != t[14].name@[0]);
    assert(t[8].name@[0] != t[12].name@[0]);
    assert forall|k: int| 0 <= k < 16 implies spec_substance(#[trigger] spec_substances()[k].name@)
        == Some(spec_substances()[k]) by {
        assert forall|j: int| 0 <= j < k implies t[j].name@ != t[k].name@ by {
            if t[j].name@.len() == t[k].name@.len() {
                assert(t[j].name@[0] != t[k].name@[0] || t[j].name@[1] != t[k].name@[1] || t[j].name@[2] != t[k].name@[2]);
            }
        }
        lemma_found_at(k);
    }
}

/// A row no earlier row shares its name with is the one found under that name.
proof fn lemma_found_at(k: int)
    requires
        0 <= k < 16,
        forall|j: int| 0 <= j < k ==> spec_substances()[j].name@ != spec_substances()[k].name@,
    ensures
        spec_substance(spec_substances()[k].name@) == Some(spec_substances()[k]),
{
    let t = spec_substances();
    let name = t[k].name@;
    lemma_first_upto(t, substance_named(name), t.len() as int);
    assert(substance_named(name)(t[k]));
    let f = first_of(t, substance_named(name));
    if 0 <= f < k {
        assert(t[f].name@ == name);
    }
}

/// The ground's substances (the first seven rows of the table) are each found under
/// their own name: no earlier row carries it.
pub proof fn lemma_ground_substances()
    ensures
        forall|k: int|
            0 <= k < 7 ==> spec_substance(#[trigger] spec_substances()[k].name@) == Some(
                spec_substances()[k],
            ),
{
    reveal_strlit("stone");
    reveal_strlit("sand");
    reveal_strlit("clay");
    reveal_strlit("coal");
    reveal_strlit("iron_ore");
    reveal_strlit("timber");
    reveal_strlit("plant_fibre");
    let t = spec_substances();
    assert(t[0].name@[1] != t[1].name@[1]);
    assert(t[0].name@[0] != t[2].name@[0]);
    assert(t[0].name@[0] != t[3].name@[0]);
    assert(t[0].name@[0] != t[4].name@[0]);
    assert(t[0].name@[0] != t[5].name@[0]);
    assert(t[0].name@[0] != t[6].name@[0]);
    assert(t[1].name@[0] != t[2].name@[0]);
    assert(t[1].name@[0] != t[3].name@[0]);
    assert(t[1].name@[0] != t[4].name@[0]);
    assert(t[1].name@[0] != t[5].name@[0]);
    assert(t[1].name@[0] != t[6].name@[0]);
    assert(t[2].name@[1] != t[3].name@[1]);
    assert(t[2].name@[0] != t[4].name@[0]);
    assert(t[2].name@[0] != t[5].name@[0]);
    assert(t[2].name@[0] != t[6].name@[0]);
    assert(t[3].name@[0] != t[4].name@[0]);
    assert(t[3].name@[0] != t[5].name@[0]);
    assert(t[3].name@[0] != t[6].name@[0]);
    assert(t[4].name@[0] != t[5].name@[0]);
    assert(t[4].name@[0] != t[6].name@[0]);
    assert(t[5].name@[0] != t[6].name@[0]);
    assert forall|k: int| 0 <= k < 7 implies spec_substance(#[trigger] spec_substances()[k].name@)
        == Some(spec_substances()[k]) by {
        let name = t[k].name@;
        lemma_first_upto(t, substance_named(name), t.len() as int);
        let f = first_of(t, substance_named(name));
        assert(substance_named(name)(t[k]));
        if f > k || f < 0 {
        } else if f < k {
            assert(t[f].name@ == name);
        }
    }
}

/// One process, by its declared name.
pub fn process(name: &str) -> (r: Option<Process>)
    ensures
        r == spec_process(name@),
{
    let mut i: usize = 0;
    while i < PROCESSES_LEN
        invariant
            i <= PROCESSES_LEN,
            first_upto(spec_processes(), process_named(name@), i as int) == -1,
        decreases PROCESSES_LEN - i,
    {
        let row = processes_row(i);
        if same(row.name, name) {
            proof {
                first_stays(spec_processes(), process_named(name@), i as int + 1);
            }
            return Some(row);
        }
        i += 1;
    }
    None
}

/// The ordinal of a declared age, or `None` for a tier nobody declared.
pub fn tier_ordinal(name: &str) -> (r: Option<i64>)
    ensures
        r == spec_tier_ordinal(name@),
{
    let mut i: usize = 0;
    while i < TIERS_LEN
        invariant
            i <= TIERS_LEN,
            first_upto(spec_tiers(), tier_named(name@), i as int) == -1,
        decreases TIERS_LEN - i,
    {
        let row = tiers_row(i);
        if same(row.0, name) {
            proof {
                first_stays(spec_tiers(), tier_named(name@), i as int + 1);
            }
            return Some(row.1);
        }
        i += 1;
    }
    None
}

/// Whether a process is in an age at or below `reached`.
pub open spec fn spec_reachable(process: Process, reached: i64) -> bool {
    spec_tier_ordinal(process.tier@) matches Some(ordinal) && ordinal <= reached
}

/// Whether a process is in an age at or below `reached`.
pub fn reachable(process: &Process, reached: i64) -> (r: bool)
    ensures
        r == spec_reachable(*process, reached),
{
    match tier_ordinal(process.tier) {
        Some(ordinal) => ordinal <= reached,
        None => false,
    }
}

/// The numerator and denominator a substance's amount reaches grams through.
pub open spec fn gram_fraction(unit: Unit, substance: Substance, amount: Rational) -> (int, int) {
    match unit {
        Unit::Mass => (amount.num as int, amount.den as int),
        Unit::Volume | Unit::Gas => (
            amount.num * substance.density.num,
            amount.den * substance.density.den,
        ),
        Unit::Count => (
            amount.num * substance.unit_mass.num,
            amount.den * substance.unit_mass.den,
        ),
    }
}

/// A whole number of grams, or `None` when the conversion is not exact (or lands
/// outside what a 64-bit count of grams can hold).
pub open spec fn spec_grams(substance: Substance, amount: Rational) -> Option<int> {
    match spec_unit_named(substance.unit@) {
        None => None,
        Some(unit) => {
            let (num, den) = gram_fraction(unit, substance, amount);
            if den == 0 || num % den != 0 || !fits_i64(num / den) {
                None
            } else {
                Some(num / den)
            }
        },
    }
}

/// A whole number of grams, or `None` when the conversion is not exact.
///
/// `None` is the honest answer rather than a rounded one: a caller that asked for a third
/// of a gram asked a question the tables do not answer.
pub fn grams(substance: &Substance, amount: Rational) -> (r: Option<i64>)
    ensures
        r matches Some(g) ==> spec_grams(*substance, amount) == Some(g as int),
        r is None ==> spec_grams(*substance, amount) is None,
{
    let unit = match Unit::named(substance.unit) {
        Some(unit) => unit,
        None => return None,
    };
    let (num, den): (i128, i128) = match unit {
        Unit::Mass => (amount.num as i128, amount.den as i128),
        Unit::Volume | Unit::Gas => (
            wide_product(amount.num, substance.density.num),
            wide_product(amount.den, substance.density.den),
        ),
        Unit::Count => (
            wide_product(amount.num, substance.unit_mass.num),
            wide_product(amount.den, substance.unit_mass.den),
        ),
    };
    match exact_quotient(num, den) {
        None => None,
        Some(q) => {
            if q < i64::MIN as i128 || q > i64::MAX as i128 {
                None
            } else {
                Some(q as i64)
            }
        },
    }
}

/// The exact product of two 64-bit integers.
fn wide_product(a: i64, b: i64) -> (r: i128)
    ensures
        r == a * b,
        -0x4000_0000_0000_0000_0000_0000_0000_0000 <= r <= 0x4000_0000_0000_0000_0000_0000_0000_0000,
{
    proof {
        assert(-0x4000_0000_0000_0000_0000_0000_0000_0000 <= a * b <= 0x4000_0000_0000_0000_0000_0000_0000_0000) by (nonlinear_arith)
            requires i64::MIN <= a <= i64::MAX, i64::MIN <= b <= i64::MAX;
    }
    a as i128 * b as i128
}

/// A named quantity's grams, or `None` when the row is wrong.
pub open spec fn spec_quantity_grams(name: Seq<char>, amount: Rational) -> Option<int> {
    match spec_substance(name) {
        None => None,
        Some(entry) => spec_grams(entry, amount),
    }
}

/// A named quantity's grams, or `None` when the row is wrong: an undeclared substance, an
/// undeclared unit, or a conversion that does not land on a whole gram.
pub fn quantity_grams(name: &str, amount: Rational) -> (r: Option<i64>)
    ensures
        r matches Some(g) ==> spec_quantity_grams(name@, amount) == Some(g as int),
        r is None ==> spec_quantity_grams(name@, amount) is None,
{
    match substance(name) {
        None => None,
        Some(entry) => grams(&entry, amount),
    }
}

/// The grams of the first `n` rows of one side of a process, or `None` when a row cannot
/// reach grams or the running total leaves what 64 bits can count.
pub open spec fn side_total_upto(side: Seq<(&'static str, Rational)>, n: int) -> Option<int>
    decreases n,
{
    if n <= 0 {
        Some(0)
    } else {
        match side_total_upto(side, n - 1) {
            None => None,
            Some(total) => match spec_quantity_grams(side[n - 1].0@, side[n - 1].1) {
                None => None,
                Some(g) => if fits_i64(total + g) {
                    Some(total + g)
                } else {
                    None
                },
            },
        }
    }
}

/// The grams of one whole side of a process.
pub open spec fn side_total(side: Seq<(&'static str, Rational)>) -> Option<int> {
    side_total_upto(side, side.len() as int)
}

/// The grams of one side of a process.
pub fn side_grams(side: &[(&'static str, Rational)]) -> (r: Option<i64>)
    ensures
        r matches Some(g) ==> side_total(side@) == Some(g as int),
        r is None ==> side_total(side@) is None,
{
    let mut total: i64 = 0;
    let mut i: usize = 0;
    while i < side.len()
        invariant
            i <= side@.len(),
            side_total_upto(side@, i as int) == Some(total as int),
        decreases side@.len() - i,
    {
        let (name, amount) = side[i];
        match quantity_grams(name, amount) {
            None => {
                proof { none_stays(side@, i as int + 1); }
                return None;
            },
            Some(g) => {
                match total.checked_add(g) {
                    None => {
                        proof { none_stays(side@, i as int + 1); }
                        return None;
                    },
                    Some(t) => {
                        total = t;
                    },
                }
            },
        }
        i += 1;
    }
    Some(total)
}

/// Once a side's running total has failed, it stays failed.
pub proof fn none_stays(side: Seq<(&'static str, Rational)>, n: int)
    requires
        0 <= n <= side.len(),
        side_total_upto(side, n) is None,
    ensures
        side_total(side) is None,
    decreases side.len() - n,
{
    if n < side.len() {
        none_stays(side, n + 1);
    }
}

/// What a process takes in and gives out, in grams.
pub open spec fn spec_process_totals(process: Process) -> (Option<int>, Option<int>) {
    (side_total(process.inputs@), side_total(process.outputs@))
}

/// What a process takes in and gives out, in grams. `None` means some row in it could
/// not reach grams at all, which is a defect rather than a zero.
pub fn process_totals(process: &Process) -> (r: (Option<i64>, Option<i64>))
    ensures
        r.0 matches Some(g) ==> spec_process_totals(*process).0 == Some(g as int),
        r.0 is None ==> spec_process_totals(*process).0 is None,
        r.1 matches Some(g) ==> spec_process_totals(*process).1 == Some(g as int),
        r.1 is None ==> spec_process_totals(*process).1 is None,
{
    (side_grams(process.inputs), side_grams(process.outputs))
}

/// Whether a process balances: both sides reach grams and agree.
pub open spec fn spec_balances(process: Process) -> bool {
    spec_process_totals(process).0 matches Some(taken) && spec_process_totals(process).1
        == Some(taken)
}

/// Whether a process balances: the one invariant the whole table exists for.
pub fn balances(process: &Process) -> (r: bool)
    ensures
        r == spec_balances(*process),
{
    let (taken, given) = process_totals(process);
    match (taken, given) {
        (Some(into), Some(out)) => into == out,
        _ => false,
    }
}

/// What a process drawn from the world gives: one row per output that reaches grams.
pub open spec fn drawn_by(process: Process) -> spec_fn((&'static str, Rational)) -> Seq<
    (&'static str, &'static str, i64),
> {
    |row: (&'static str, Rational)|
        match spec_quantity_grams(row.0@, row.1) {
            Some(g) => seq![(process.name, row.0, g as i64)],
            None => Seq::<(&'static str, &'static str, i64)>::empty(),
        }
}

/// What one process contributes to the world's gathers: nothing, unless it takes nothing in.
pub open spec fn gathered_by() -> spec_fn(Process) -> Seq<(&'static str, &'static str, i64)> {
    |process: Process|
        if process.inputs@.len() == 0 {
            each_of(process.outputs@, drawn_by(process))
        } else {
            Seq::<(&'static str, &'static str, i64)>::empty()
        }
}

/// The gathers, in table order.
pub open spec fn spec_gathers() -> Seq<(&'static str, &'static str, i64)> {
    each_of(spec_processes(), gathered_by())
}

/// What one gather draws from the world, output by output.
fn gathers_of(process: &Process, drawn: &mut Vec<(&'static str, &'static str, i64)>)
    requires
        process.inputs@.len() == 0,
    ensures
        final(drawn)@ == old(drawn)@ + each_of(process.outputs@, drawn_by(*process)),
{
    let mut i: usize = 0;
    while i < process.outputs.len()
        invariant
            i <= process.outputs@.len(),
            drawn@ == old(drawn)@ + each_of(process.outputs@.take(i as int), drawn_by(*process)),
        decreases process.outputs@.len() - i,
    {
        proof {
            lemma_each_of_step(process.outputs@, drawn_by(*process), i as int);
        }
        let (name, amount) = process.outputs[i];
        let ghost before = drawn@;
        match quantity_grams(name, amount) {
            Some(grams) => {
                drawn.push((process.name, name, grams));
                proof {
                    assert(drawn@ =~= before + seq![(process.name, name, grams)]);
                }
            },
            None => {
                proof {
                    assert(drawn@ =~= before + Seq::<(&'static str, &'static str, i64)>::empty());
                }
            },
        }
        i += 1;
    }
    proof {
        lemma_take_all(process.outputs@);
    }
}

/// Every gather's draw on the world: the process, the substance and the grams, for each
/// process that takes nothing in.
///
/// This is the only place in the design where mass legitimately enters the world, and a
/// reader who wants to check that claim can ask for it directly.
pub fn gathers() -> (r: Vec<(&'static str, &'static str, i64)>)
    ensures
        r@ == spec_gathers(),
{
    let table = processes();
    let mut drawn: Vec<(&'static str, &'static str, i64)> = Vec::new();
    let mut i: usize = 0;
    while i < table.len()
        invariant
            i <= table@.len(),
            table@ == spec_processes(),
            drawn@ == each_of(spec_processes().take(i as int), gathered_by()),
        decreases table@.len() - i,
    {
        proof {
            lemma_each_of_step(spec_processes(), gathered_by(), i as int);
        }
        let process = table[i];
        if process.inputs.len() == 0 {
            gathers_of(&process, &mut drawn);
        } else {
            proof {
                assert(drawn@ =~= drawn@ + Seq::<(&'static str, &'static str, i64)>::empty());
            }
        }
        i += 1;
    }
    proof {
        lemma_take_all(spec_processes());
    }
    drawn
}

/// The audit's first line: what it read.
pub open spec fn schema_header() -> Seq<char> {
    "schema: "@ + decimal_nat(SUBSTANCES_LEN as nat) + " substances, "@ + decimal_nat(
        PROCESSES_LEN as nat,
    ) + " processes, "@ + decimal_nat(TIERS_LEN as nat) + " tiers"@
}

/// The declared units' names, as the audit quotes them.
pub open spec fn unit_list() -> Seq<char> {
    joined(
        seq![
            spec_unit_name(Unit::Mass),
            spec_unit_name(Unit::Volume),
            spec_unit_name(Unit::Count),
            spec_unit_name(Unit::Gas),
        ],
        ", "@,
    )
}

/// A unit's name as it reads inside a sentence.
pub open spec fn unit_lower(unit: Unit) -> Seq<char> {
    match unit {
        Unit::Mass => "mass"@,
        Unit::Volume => "volume"@,
        Unit::Count => "count"@,
        Unit::Gas => "gas"@,
    }
}

/// Whether a declared ratio is a positive number.
pub open spec fn positive(r: Rational) -> bool {
    r.num > 0 && r.den > 0
}

/// What a substance's unit contributes to the audit.
pub open spec fn unit_findings(entry: Substance) -> Seq<Finding> {
    match spec_unit_named(entry.unit@) {
        None => seq![
            Finding::Defect(
                "substance `"@ + entry.name@ + "` declares unit `"@ + entry.unit@
                    + "`, which is not one of "@ + unit_list(),
            ),
        ],
        Some(unit) => match unit {
            Unit::Volume | Unit::Gas => if positive(entry.density) {
                Seq::<Finding>::empty()
            } else {
                seq![
                    Finding::Defect(
                        "substance `"@ + entry.name@ + "` is measured in "@ + unit_lower(unit)
                            + " and declares no positive density — it cannot reach grams, so it cannot enter the ledger"@,
                    ),
                ]
            },
            Unit::Count => if positive(entry.unit_mass) {
                Seq::<Finding>::empty()
            } else {
                seq![
                    Finding::Defect(
                        "substance `"@ + entry.name@
                            + "` is measured in units and declares no positive unit mass — \"1 "@
                            + entry.name@ + "\" is not a number anybody can audit"@,
                    ),
                ]
            },
            Unit::Mass => Seq::<Finding>::empty(),
        },
    }
}

/// Whether a family name is declared, by the icon set or by the world.
pub open spec fn declared_family(name: Seq<char>) -> bool {
    listed(spec_icon_family_names(), name) || listed(spec_world_family_names(), name)
}

/// What one substance row contributes to the audit: its unit, then its family.
pub open spec fn substance_findings() -> spec_fn(Substance) -> Seq<Finding> {
    |entry: Substance|
        unit_findings(entry) + if declared_family(entry.family@) {
            Seq::<Finding>::empty()
        } else {
            seq![
                Finding::Defect(
                    "substance `"@ + entry.name@ + "` presents as `"@ + entry.family@
                        + "`, which is not a declared family"@,
                ),
            ]
        }
}

/// The declared units' names, joined as the audit quotes them.
fn unit_names() -> (r: String)
    ensures
        r@ == unit_list(),
{
    let mut names: Vec<String> = Vec::new();
    names.push(String::from_str(Unit::Mass.name()));
    names.push(String::from_str(Unit::Volume.name()));
    names.push(String::from_str(Unit::Count.name()));
    names.push(String::from_str(Unit::Gas.name()));
    proof {
        assert(views(names@) =~= seq![
            spec_unit_name(Unit::Mass),
            spec_unit_name(Unit::Volume),
            spec_unit_name(Unit::Count),
            spec_unit_name(Unit::Gas),
        ]);
    }
    join(&names, ", ")
}

/// A unit's name as it reads inside a sentence.
fn unit_word(unit: Unit) -> (r: &'static str)
    ensures
        r@ == unit_lower(unit),
{
    match unit {
        Unit::Mass => "mass",
        Unit::Volume => "volume",
        Unit::Count => "count",
        Unit::Gas => "gas",
    }
}

/// Report what one substance row gets wrong.
fn check_substance(report: &mut Report, entry: &Substance, icons: &Vec<&'static str>, world: &Vec<&'static str>)
    requires
        icons@ == spec_icon_family_names(),
        world@ == spec_world_family_names(),
    ensures
        final(report)@ == after_all(old(report)@, substance_findings()(*entry)),
{
    let ghost start = report@;
    match Unit::named(entry.unit) {
        None => {
            let line = glue(
                glue(
                    glue(glue(String::from_str("substance `"), entry.name), "` declares unit `"),
                    entry.unit,
                ),
                "`, which is not one of ",
            );
            let units = unit_names();
            let line = glue(line, units.as_str());
            report.defect(line);
        },
        Some(unit) => {
            match unit {
                Unit::Volume | Unit::Gas => {
                    if entry.density.num <= 0 || entry.density.den <= 0 {
                        let line = glue(
                            glue(
                                glue(glue(String::from_str("substance `"), entry.name), "` is measured in "),
                                unit_word(unit),
                            ),
                            " and declares no positive density — it cannot reach grams, so it cannot enter the ledger",
                        );
                        report.defect(line);
                    }
                },
                Unit::Count => {
                    if entry.unit_mass.num <= 0 || entry.unit_mass.den <= 0 {
                        let line = glue(
                            glue(
                                glue(
                                    glue(String::from_str("substance `"), entry.name),
                                    "` is measured in units and declares no positive unit mass — \"1 ",
                                ),
                                entry.name,
                            ),
                            "\" is not a number anybody can audit",
                        );
                        report.defect(line);
                    }
                },
                Unit::Mass => {},
            }
        },
    }
    let ghost middle = report@;
    assert(middle == after_all(start, unit_findings(*entry)));
    if !is_listed(icons, entry.family) && !is_listed(world, entry.family) {
        let line = glue(
            glue(glue(glue(String::from_str("substance `"), entry.name), "` presents as `"), entry.family),
            "`, which is not a declared family",
        );
        report.defect(line);
    }
    proof {
        let tail = if declared_family(entry.family@) {
            Seq::<Finding>::empty()
        } else {
            seq![
                Finding::Defect(
                    "substance `"@ + entry.name@ + "` presents as `"@ + entry.family@
                        + "`, which is not a declared family"@,
                ),
            ]
        };
        assert(report@ == after_all(middle, tail));
        lemma_after_all_append(start, unit_findings(*entry), tail);
    }
}

/// What a row naming an undeclared substance contributes.
pub open spec fn undeclared_names(process: Process) -> spec_fn((&'static str, Rational)) -> Seq<
    Finding,
> {
    |row: (&'static str, Rational)|
        if spec_substance(row.0@) is None {
            seq![
                Finding::Defect(
                    "process `"@ + process.name@ + "` names `"@ + row.0@ + "`, which is not declared"@,
                ),
            ]
        } else {
            Seq::<Finding>::empty()
        }
}

/// The defect a process that does not balance is reported as.
pub open spec fn unbalanced_text(name: Seq<char>, taken: int, given: int) -> Seq<char> {
    "process `"@ + name + "` does not balance: in "@ + decimal(taken) + " g, out "@ + decimal(given)
        + " g — a difference of "@ + decimal(taken - given)
        + " g. Every gram that leaves must arrive somewhere, and a loss is declared as an output rather than subtracted"@
}

/// The defect a process with a fractional gram is reported as.
pub open spec fn fractional_text(name: Seq<char>) -> Seq<char> {
    "process `"@ + name
        + "` has a quantity that does not land on a whole gram — a process measured in fractions of a gram is a process whose numbers are wrong"@
}

/// What a process's balance contributes.
pub open spec fn balance_findings(process: Process) -> Seq<Finding> {
    match (side_total(process.inputs@), side_total(process.outputs@)) {
        (Some(taken), Some(given)) => if taken != given && process.inputs@.len() != 0 {
            seq![Finding::Defect(unbalanced_text(process.name@, taken, given))]
        } else {
            Seq::<Finding>::empty()
        },
        _ => seq![Finding::Defect(fractional_text(process.name@))],
    }
}

/// What a gather producing a made good contributes.
pub open spec fn conjured(process: Process) -> spec_fn((&'static str, Rational)) -> Seq<Finding> {
    |row: (&'static str, Rational)|
        if spec_substance(row.0@) matches Some(entry) && entry.source@ == "made"@ {
            seq![
                Finding::Defect(
                    "process `"@ + process.name@ + "` takes nothing in and produces `"@ + row.0@
                        + "`, whose source is `made` — that is material from nothing, which is the one thing this table exists to refuse"@,
                ),
            ]
        } else {
            Seq::<Finding>::empty()
        }
}

/// What a process's heat contributes.
pub open spec fn heat_findings(process: Process) -> Seq<Finding> {
    if process.mechanism.heat_c > 0 && !(process.mechanism.heat_kind@ == "material"@
        || process.mechanism.heat_kind@ == "flame"@) {
        seq![
            Finding::Defect(
                "process `"@ + process.name@ + "` declares "@ + decimal(process.mechanism.heat_c as int)
                    + " °C with no heat kind — the material and the flame differ by ~600 °C and both readings are correct"@,
            ),
        ]
    } else {
        Seq::<Finding>::empty()
    }
}

/// The closed vocabulary a requirement's kind names, if it names one.
pub open spec fn vocabulary(kind: Seq<char>) -> Option<Seq<(&'static str, &'static str)>> {
    if kind == "structure"@ {
        Some(spec_structures())
    } else if kind == "tool"@ {
        Some(spec_tools())
    } else if kind == "skill"@ {
        Some(spec_skills())
    } else {
        None
    }
}

/// Whether a vocabulary declares a name.
pub open spec fn declares(vocabulary: Seq<(&'static str, &'static str)>, name: Seq<char>) -> bool {
    exists|k: int| 0 <= k < vocabulary.len() && #[trigger] vocabulary[k].0@ == name
}

/// What one requirement of a process contributes.
pub open spec fn requirement_findings(process: Process) -> spec_fn((&'static str, &'static str)) -> Seq<
    Finding,
> {
    |req: (&'static str, &'static str)|
        match vocabulary(req.0@) {
            None => seq![
                Finding::Defect(
                    "process `"@ + process.name@ + "` requires a `"@ + req.0@
                        + "`, which is not a declared vocabulary"@,
                ),
            ],
            Some(v) => if declares(v, req.1@) {
                Seq::<Finding>::empty()
            } else {
                seq![
                    Finding::Defect(
                        "process `"@ + process.name@ + "` requires "@ + req.0@ + " `"@ + req.1@
                            + "`, which is not declared — the vocabulary is closed, and naming something outside it is a claim with no number behind it"@,
                    ),
                ]
            },
        }
}

/// What one process row contributes to the audit: its age, its names, its balance, what a
/// gather produces, its heat, and what it requires.
pub open spec fn process_findings() -> spec_fn(Process) -> Seq<Finding> {
    |process: Process|
        (if spec_tier_ordinal(process.tier@) is None {
            seq![
                Finding::Defect(
                    "process `"@ + process.name@ + "` belongs to tier `"@ + process.tier@
                        + "`, which is not declared — a process in no tier cannot be reached"@,
                ),
            ]
        } else {
            Seq::<Finding>::empty()
        }) + each_of(process.inputs@ + process.outputs@, undeclared_names(process))
            + balance_findings(process) + (if process.inputs@.len() == 0 {
            each_of(process.outputs@, conjured(process))
        } else {
            Seq::<Finding>::empty()
        }) + heat_findings(process) + each_of(process.requires@, requirement_findings(process))
}

/// Report each row of one side that names an undeclared substance.
fn check_names(report: &mut Report, process: &Process, rows: &[(&'static str, Rational)])
    ensures
        final(report)@ == after_all(old(report)@, each_of(rows@, undeclared_names(*process))),
{
    let ghost start = report@;
    let mut i: usize = 0;
    while i < rows.len()
        invariant
            i <= rows@.len(),
            report@ == after_all(start, each_of(rows@.take(i as int), undeclared_names(*process))),
        decreases rows@.len() - i,
    {
        proof {
            lemma_each_of_step(rows@, undeclared_names(*process), i as int);
            lemma_after_all_append(
                start,
                each_of(rows@.take(i as int), undeclared_names(*process)),
                undeclared_names(*process)(rows@[i as int]),
            );
        }
        let (name, _) = rows[i];
        if substance(name).is_none() {
            let line = glue(
                glue(glue(glue(String::from_str("process `"), process.name), "` names `"), name),
                "`, which is not declared",
            );
            report.defect(line);
        }
        i += 1;
    }
    proof {
        lemma_take_all(rows@);
    }
}

/// Report each output of a gather whose source is `made`.
fn check_conjured(report: &mut Report, process: &Process)
    ensures
        final(report)@ == after_all(old(report)@, each_of(process.outputs@, conjured(*process))),
{
    let ghost start = report@;
    let mut i: usize = 0;
    while i < process.outputs.len()
        invariant
            i <= process.outputs@.len(),
            report@ == after_all(start, each_of(process.outputs@.take(i as int), conjured(*process))),
        decreases process.outputs@.len() - i,
    {
        proof {
            lemma_each_of_step(process.outputs@, conjured(*process), i as int);
            lemma_after_all_append(
                start,
                each_of(process.outputs@.take(i as int), conjured(*process)),
                conjured(*process)(process.outputs@[i as int]),
            );
        }
        let (name, _) = process.outputs[i];
        match substance(name) {
            Some(entry) => {
                if same(entry.source, "made") {
                    let line = glue(
                        glue(
                            glue(String::from_str("process `"), process.name),
                            "` takes nothing in and produces `",
                        ),
                        name,
                    );
                    let line = glue(
                        line,
                        "`, whose source is `made` — that is material from nothing, which is the one thing this table exists to refuse",
                    );
                    report.defect(line);
                }
            },
            None => {},
        }
        i += 1;
    }
    proof {
        lemma_take_all(process.outputs@);
    }
}

/// Whether a vocabulary declares a name.
fn vocabulary_declares(vocabulary: &Vec<(&'static str, &'static str)>, name: &str) -> (r: bool)
    ensures
        r == declares(vocabulary@, name@),
{
    let mut i: usize = 0;
    while i < vocabulary.len()
        invariant
            i <= vocabulary@.len(),
            forall|k: int| 0 <= k < i ==> #[trigger] vocabulary@[k].0@ != name@,
        decreases vocabulary@.len() - i,
    {
        if same(vocabulary[i].0, name) {
            return true;
        }
        i += 1;
    }
    false
}

/// The closed vocabulary a requirement's kind names, if it names one.
fn vocabulary_of(kind: &str) -> (r: Option<Vec<(&'static str, &'static str)>>)
    ensures
        match vocabulary(kind@) {
            None => r is None,
            Some(v) => r matches Some(got) && got@ == v,
        },
{
    if same(kind, "structure") {
        Some(structures())
    } else if same(kind, "tool") {
        Some(tools())
    } else if same(kind, "skill") {
        Some(skills())
    } else {
        None
    }
}

/// Report each requirement of a process that names nothing declared.
fn check_requirements(report: &mut Report, process: &Process)
    ensures
        final(report)@ == after_all(
            old(report)@,
            each_of(process.requires@, requirement_findings(*process)),
        ),
{
    let ghost start = report@;
    let mut i: usize = 0;
    while i < process.requires.len()
        invariant
            i <= process.requires@.len(),
            report@ == after_all(
                start,
                each_of(process.requires@.take(i as int), requirement_findings(*process)),
            ),
        decreases process.requires@.len() - i,
    {
        proof {
            lemma_each_of_step(process.requires@, requirement_findings(*process), i as int);
            lemma_after_all_append(
                start,
                each_of(process.requires@.take(i as int), requirement_findings(*process)),
                requirement_findings(*process)(process.requires@[i as int]),
            );
        }
        let (kind, required) = process.requires[i];
        match vocabulary_of(kind) {
            None => {
                let line = glue(
                    glue(glue(glue(String::from_str("process `"), process.name), "` requires a `"), kind),
                    "`, which is not a declared vocabulary",
                );
                report.defect(line);
            },
            Some(v) => {
                if !vocabulary_declares(&v, required) {
                    let line = glue(
                        glue(glue(glue(String::from_str("process `"), process.name), "` requires "), kind),
                        " `",
                    );
                    let line = glue(
                        glue(line, required),
                        "`, which is not declared — the vocabulary is closed, and naming something outside it is a claim with no number behind it",
                    );
                    report.defect(line);
                }
            },
        }
        i += 1;
    }
    proof {
        lemma_take_all(process.requires@);
    }
}

/// Report what a process's balance gets wrong.
fn check_balance(report: &mut Report, process: &Process)
    ensures
        final(report)@ == after_all(old(report)@, balance_findings(*process)),
{
    let (taken, given) = process_totals(process);
    match (taken, given) {
        (Some(into), Some(out)) => {
            if into != out && process.inputs.len() != 0 {
                let difference: i128 = into as i128 - out as i128;
                let line = glue(
                    glue(glue(String::from_str("process `"), process.name), "` does not balance: in "),
                    show_i64(into).as_str(),
                );
                let line = glue(glue(glue(line, " g, out "), show_i64(out).as_str()), " g — a difference of ");
                let line = glue(
                    glue(line, show_i128(difference).as_str()),
                    " g. Every gram that leaves must arrive somewhere, and a loss is declared as an output rather than subtracted",
                );
                report.defect(line);
            }
        },
        _ => {
            let line = glue(
                glue(String::from_str("process `"), process.name),
                "` has a quantity that does not land on a whole gram — a process measured in fractions of a gram is a process whose numbers are wrong",
            );
            report.defect(line);
        },
    }
}

/// Report what one process row gets wrong.
fn check_process(report: &mut Report, process: &Process)
    ensures
        final(report)@ == after_all(old(report)@, process_findings()(*process)),
{
    let ghost p = *process;
    let ghost r0 = report@;
    let ghost tier = if spec_tier_ordinal(p.tier@) is None {
        seq![
            Finding::Defect(
                "process `"@ + p.name@ + "` belongs to tier `"@ + p.tier@
                    + "`, which is not declared — a process in no tier cannot be reached"@,
            ),
        ]
    } else {
        Seq::<Finding>::empty()
    };
    if tier_ordinal(process.tier).is_none() {
        let line = glue(
            glue(glue(glue(String::from_str("process `"), process.name), "` belongs to tier `"), process.tier),
            "`, which is not declared — a process in no tier cannot be reached",
        );
        report.defect(line);
    }
    let ghost r1 = report@;
    check_names(report, process, process.inputs);
    check_names(report, process, process.outputs);
    let ghost r2 = report@;
    proof {
        lemma_each_of_append(p.inputs@, p.outputs@, undeclared_names(p));
        lemma_after_all_append(
            r1,
            each_of(p.inputs@, undeclared_names(p)),
            each_of(p.outputs@, undeclared_names(p)),
        );
    }
    check_balance(report, process);
    let ghost r3 = report@;
    let ghost gather = if p.inputs@.len() == 0 {
        each_of(p.outputs@, conjured(p))
    } else {
        Seq::<Finding>::empty()
    };
    if process.inputs.len() == 0 {
        check_conjured(report, process);
    }
    let ghost r4 = report@;
    let ghost heat = heat_findings(p);
    if process.mechanism.heat_c > 0 && !(same(process.mechanism.heat_kind, "material") || same(
        process.mechanism.heat_kind,
        "flame",
    )) {
        let line = glue(
            glue(glue(String::from_str("process `"), process.name), "` declares "),
            show_i64(process.mechanism.heat_c).as_str(),
        );
        let line = glue(
            line,
            " °C with no heat kind — the material and the flame differ by ~600 °C and both readings are correct",
        );
        report.defect(line);
    }
    let ghost r5 = report@;
    check_requirements(report, process);
    proof {
        let names = each_of(p.inputs@ + p.outputs@, undeclared_names(p));
        let reqs = each_of(p.requires@, requirement_findings(p));
        let bal = balance_findings(p);
        assert(r1 == after_all(r0, tier));
        assert(r2 == after_all(r1, names));
        assert(r3 == after_all(r2, bal));
        assert(r4 == after_all(r3, gather));
        assert(r5 == after_all(r4, heat));
        assert(report@ == after_all(r5, reqs));
        lemma_after_all_append(r0, tier, names);
        lemma_after_all_append(r0, tier + names, bal);
        lemma_after_all_append(r0, tier + names + bal, gather);
        lemma_after_all_append(r0, tier + names + bal + gather, heat);
        lemma_after_all_append(r0, tier + names + bal + gather + heat, reqs);
        assert(process_findings()(p) == tier + names + bal + gather + heat + reqs);
    }
}

/// What a made substance that cannot be planned from the world contributes.
pub open spec fn plan_findings() -> spec_fn(Substance) -> Seq<Finding> {
    |entry: Substance|
        if entry.source@ == "made"@ {
            match spec_reduce(spec_processes(), entry.name@, 1, asked(entry.name@, 1), Seq::empty()) {
                Reduced::Refused(refusal) => seq![
                    Finding::Defect(
                        "`"@ + entry.name@ + "` is made and cannot be planned from the world: "@
                            + refusal_text(refusal),
                    ),
                ],
                Reduced::Done(_) => Seq::<Finding>::empty(),
            }
        } else {
            Seq::<Finding>::empty()
        }
}

/// Report a made substance that cannot be planned from the world.
fn check_plan(report: &mut Report, entry: &Substance)
    ensures
        final(report)@ == after_all(old(report)@, plan_findings()(*entry)),
{
    if same(entry.source, "made") {
        match plan(entry.name, 1) {
            Err(refusal) => {
                let line = glue(
                    glue(String::from_str("`"), entry.name),
                    "` is made and cannot be planned from the world: ",
                );
                let why = refusal.describe();
                let line = glue(line, why.as_str());
                report.defect(line);
            },
            Ok(_) => {},
        }
    }
}

/// The names a process takes in.
pub open spec fn input_names() -> spec_fn(Process) -> Seq<&'static str> {
    |process: Process| process.inputs@.map_values(|row: (&'static str, Rational)| row.0)
}

/// Every name some process takes in, in table order.
pub open spec fn consumed() -> Seq<&'static str> {
    each_of(spec_processes(), input_names())
}

/// Every name some process takes in, in table order.
fn consumed_names() -> (r: Vec<&'static str>)
    ensures
        r@ == consumed(),
{
    let table = processes();
    let mut out: Vec<&'static str> = Vec::new();
    let mut i: usize = 0;
    while i < table.len()
        invariant
            i <= table@.len(),
            table@ == spec_processes(),
            out@ == each_of(spec_processes().take(i as int), input_names()),
        decreases table@.len() - i,
    {
        proof {
            lemma_each_of_step(spec_processes(), input_names(), i as int);
        }
        let process = table[i];
        let ghost before = out@;
        let mut j: usize = 0;
        while j < process.inputs.len()
            invariant
                j <= process.inputs@.len(),
                out@ == before + process.inputs@.take(j as int).map_values(
                    |row: (&'static str, Rational)| row.0,
                ),
            decreases process.inputs@.len() - j,
        {
            out.push(process.inputs[j].0);
            proof {
                assert(process.inputs@.take(j as int + 1).map_values(
                    |row: (&'static str, Rational)| row.0,
                ) =~= process.inputs@.take(j as int).map_values(|row: (&'static str, Rational)| row.0).push(
                    process.inputs@[j as int].0,
                ));
            }
            j += 1;
        }
        proof {
            lemma_take_all(process.inputs@);
        }
        i += 1;
    }
    proof {
        lemma_take_all(spec_processes());
    }
    out
}

/// What a substance nothing consumes, and that says nothing of why, contributes.
pub open spec fn consumer_findings() -> spec_fn(Substance) -> Seq<Finding> {
    |entry: Substance|
        if !listed(consumed(), entry.name@) && entry.no_consumer@.len() == 0 {
            seq![
                Finding::Defect(
                    "substance `"@ + entry.name@
                        + "` has no consumer and no declared reason — a substance something will use as soon as the rung above lands is unfinished work, which must say so"@,
                ),
            ]
        } else {
            Seq::<Finding>::empty()
        }
}

/// Report a substance nothing consumes that does not say why.
fn check_consumer(report: &mut Report, entry: &Substance, eaten: &Vec<&'static str>)
    requires
        eaten@ == consumed(),
    ensures
        final(report)@ == after_all(old(report)@, consumer_findings()(*entry)),
{
    if !is_listed(eaten, entry.name) && entry.no_consumer.unicode_len() == 0 {
        let line = glue(
            glue(String::from_str("substance `"), entry.name),
            "` has no consumer and no declared reason — a substance something will use as soon as the rung above lands is unfinished work, which must say so",
        );
        report.defect(line);
    }
}

/// Every requirement some process declares, in table order.
pub open spec fn all_requirements() -> Seq<(&'static str, &'static str)> {
    each_of(spec_processes(), |process: Process| process.requires@)
}

/// Whether some process requires this entry of this vocabulary.
pub open spec fn required(kind: Seq<char>, name: Seq<char>) -> bool {
    exists|k: int|
        0 <= k < all_requirements().len() && #[trigger] all_requirements()[k].0@ == kind
            && all_requirements()[k].1@ == name
}

/// Every requirement some process declares, in table order.
fn requirement_rows() -> (r: Vec<(&'static str, &'static str)>)
    ensures
        r@ == all_requirements(),
{
    let table = processes();
    let mut out: Vec<(&'static str, &'static str)> = Vec::new();
    let mut i: usize = 0;
    while i < table.len()
        invariant
            i <= table@.len(),
            table@ == spec_processes(),
            out@ == each_of(spec_processes().take(i as int), |process: Process| process.requires@),
        decreases table@.len() - i,
    {
        proof {
            lemma_each_of_step(spec_processes(), |process: Process| process.requires@, i as int);
        }
        let process = table[i];
        let ghost before = out@;
        let mut j: usize = 0;
        while j < process.requires.len()
            invariant
                j <= process.requires@.len(),
                out@ == before + process.requires@.take(j as int),
            decreases process.requires@.len() - j,
        {
            out.push(process.requires[j]);
            proof {
                assert(process.requires@.take(j as int + 1) =~= process.requires@.take(j as int).push(
                    process.requires@[j as int],
                ));
            }
            j += 1;
        }
        proof {
            lemma_take_all(process.requires@);
        }
        i += 1;
    }
    proof {
        lemma_take_all(spec_processes());
    }
    out
}

/// What a vocabulary entry nothing requires contributes.
pub open spec fn unused_findings(kind: Seq<char>) -> spec_fn((&'static str, &'static str)) -> Seq<
    Finding,
> {
    |row: (&'static str, &'static str)|
        if required(kind, row.0@) {
            Seq::<Finding>::empty()
        } else {
            seq![
                Finding::Defect(
                    kind + " `"@ + row.0@
                        + "` is declared and no process requires it — an entry nothing uses is an intention wearing a name"@,
                ),
            ]
        }
}

/// Report each entry of one vocabulary that nothing requires.
fn check_unused(
    report: &mut Report,
    kind: &str,
    vocabulary: &Vec<(&'static str, &'static str)>,
    rows: &Vec<(&'static str, &'static str)>,
)
    requires
        rows@ == all_requirements(),
    ensures
        final(report)@ == after_all(old(report)@, each_of(vocabulary@, unused_findings(kind@))),
{
    let ghost start = report@;
    let mut i: usize = 0;
    while i < vocabulary.len()
        invariant
            i <= vocabulary@.len(),
            rows@ == all_requirements(),
            report@ == after_all(start, each_of(vocabulary@.take(i as int), unused_findings(kind@))),
        decreases vocabulary@.len() - i,
    {
        proof {
            lemma_each_of_step(vocabulary@, unused_findings(kind@), i as int);
            lemma_after_all_append(
                start,
                each_of(vocabulary@.take(i as int), unused_findings(kind@)),
                unused_findings(kind@)(vocabulary@[i as int]),
            );
        }
        let name = vocabulary[i].0;
        let mut used = false;
        let mut j: usize = 0;
        while j < rows.len()
            invariant
                j <= rows@.len(),
                used == (exists|k: int|
                    0 <= k < j && #[trigger] rows@[k].0@ == kind@ && rows@[k].1@ == name@),
            decreases rows@.len() - j,
        {
            if same(rows[j].0, kind) && same(rows[j].1, name) {
                used = true;
            }
            j += 1;
        }
        if !used {
            let line = glue(
                glue(glue(String::from_str(kind), " `"), name),
                "` is declared and no process requires it — an entry nothing uses is an intention wearing a name",
            );
            report.defect(line);
        }
        i += 1;
    }
    proof {
        lemma_take_all(vocabulary@);
    }
}

/// The line a process that reaches grams on both sides prints.
pub open spec fn labour_text(process: Process, taken: int, given: int) -> Seq<char> {
    "schema: `"@ + process.name@ + "` ("@ + process.tier@ + ") — in "@ + decimal(taken)
        + " g, out "@ + decimal(given) + " g, "@ + decimal(
        process.mechanism.labour_hours.num as int,
    ) + "/"@ + decimal(process.mechanism.labour_hours.den as int) + " h of labour"@
}

/// What a process that reaches grams on both sides prints.
pub open spec fn labour_notes() -> spec_fn(Process) -> Seq<Finding> {
    |process: Process|
        match (side_total(process.inputs@), side_total(process.outputs@)) {
            (Some(taken), Some(given)) => seq![Finding::Note(labour_text(process, taken, given))],
            _ => Seq::<Finding>::empty(),
        }
}

/// Print a process's grams and labour, when both sides reach grams.
fn note_labour(report: &mut Report, process: &Process)
    ensures
        final(report)@ == after_all(old(report)@, labour_notes()(*process)),
{
    let (taken, given) = process_totals(process);
    match (taken, given) {
        (Some(into), Some(out)) => {
            let line = glue(
                glue(glue(glue(String::from_str("schema: `"), process.name), "` ("), process.tier),
                ") — in ",
            );
            let line = glue(glue(glue(line, show_i64(into).as_str()), " g, out "), show_i64(out).as_str());
            let line = glue(
                glue(glue(line, " g, "), show_i64(process.mechanism.labour_hours.num).as_str()),
                "/",
            );
            let line = glue(
                glue(line, show_i64(process.mechanism.labour_hours.den).as_str()),
                " h of labour",
            );
            report.note(line);
        },
        _ => {},
    }
}

/// What an open item prints.
pub open spec fn schema_open_notes() -> spec_fn(&'static str) -> Seq<Finding> {
    |item: &'static str| seq![Finding::Note("schema: open — "@ + item@)]
}

/// Print an open item.
fn note_open(report: &mut Report, item: &'static str)
    ensures
        final(report)@ == after_all(old(report)@, schema_open_notes()(item)),
{
    report.note(glue(String::from_str("schema: open — "), item));
}

/// Report what every substance row gets wrong.
fn check_substances(report: &mut Report)
    ensures
        final(report)@ == after_all(old(report)@, each_of(spec_substances(), substance_findings())),
{
    let ghost start = report@;
    let icons = icon_family_names();
    let world = world_family_names();
    let table = substances();
    let mut i: usize = 0;
    while i < table.len()
        invariant
            i <= table@.len(),
            table@ == spec_substances(),
            icons@ == spec_icon_family_names(),
            world@ == spec_world_family_names(),
            report@ == after_all(start, each_of(spec_substances().take(i as int), substance_findings())),
        decreases table@.len() - i,
    {
        proof {
            lemma_each_of_step(spec_substances(), substance_findings(), i as int);
            lemma_after_all_append(
                start,
                each_of(spec_substances().take(i as int), substance_findings()),
                substance_findings()(table@[i as int]),
            );
        }
        let row = table[i];
        check_substance(report, &row, &icons, &world);
        i += 1;
    }
    proof {
        lemma_take_all(spec_substances());
    }
}

/// Report what every process row gets wrong.
fn check_processes(report: &mut Report)
    ensures
        final(report)@ == after_all(old(report)@, each_of(spec_processes(), process_findings())),
{
    let ghost start = report@;
    let table = processes();
    let mut i: usize = 0;
    while i < table.len()
        invariant
            i <= table@.len(),
            table@ == spec_processes(),
            report@ == after_all(start, each_of(spec_processes().take(i as int), process_findings())),
        decreases table@.len() - i,
    {
        proof {
            lemma_each_of_step(spec_processes(), process_findings(), i as int);
            lemma_after_all_append(
                start,
                each_of(spec_processes().take(i as int), process_findings()),
                process_findings()(table@[i as int]),
            );
        }
        let row = table[i];
        check_process(report, &row);
        i += 1;
    }
    proof {
        lemma_take_all(spec_processes());
    }
}

/// Report every made substance that cannot be planned from the world.
fn check_plans(report: &mut Report)
    ensures
        final(report)@ == after_all(old(report)@, each_of(spec_substances(), plan_findings())),
{
    let ghost start = report@;
    let table = substances();
    let mut i: usize = 0;
    while i < table.len()
        invariant
            i <= table@.len(),
            table@ == spec_substances(),
            report@ == after_all(start, each_of(spec_substances().take(i as int), plan_findings())),
        decreases table@.len() - i,
    {
        proof {
            lemma_each_of_step(spec_substances(), plan_findings(), i as int);
            lemma_after_all_append(
                start,
                each_of(spec_substances().take(i as int), plan_findings()),
                plan_findings()(table@[i as int]),
            );
        }
        let row = table[i];
        check_plan(report, &row);
        i += 1;
    }
    proof {
        lemma_take_all(spec_substances());
    }
}

/// Report every substance nothing consumes that does not say why.
fn check_consumers(report: &mut Report)
    ensures
        final(report)@ == after_all(old(report)@, each_of(spec_substances(), consumer_findings())),
{
    let ghost start = report@;
    let eaten = consumed_names();
    let table = substances();
    let mut i: usize = 0;
    while i < table.len()
        invariant
            i <= table@.len(),
            table@ == spec_substances(),
            eaten@ == consumed(),
            report@ == after_all(start, each_of(spec_substances().take(i as int), consumer_findings())),
        decreases table@.len() - i,
    {
        proof {
            lemma_each_of_step(spec_substances(), consumer_findings(), i as int);
            lemma_after_all_append(
                start,
                each_of(spec_substances().take(i as int), consumer_findings()),
                consumer_findings()(table@[i as int]),
            );
        }
        let row = table[i];
        check_consumer(report, &row, &eaten);
        i += 1;
    }
    proof {
        lemma_take_all(spec_substances());
    }
}

/// Print every process's grams and labour.
fn note_labours(report: &mut Report)
    ensures
        final(report)@ == after_all(old(report)@, each_of(spec_processes(), labour_notes())),
{
    let ghost start = report@;
    let table = processes();
    let mut i: usize = 0;
    while i < table.len()
        invariant
            i <= table@.len(),
            table@ == spec_processes(),
            report@ == after_all(start, each_of(spec_processes().take(i as int), labour_notes())),
        decreases table@.len() - i,
    {
        proof {
            lemma_each_of_step(spec_processes(), labour_notes(), i as int);
            lemma_after_all_append(
                start,
                each_of(spec_processes().take(i as int), labour_notes()),
                labour_notes()(table@[i as int]),
            );
        }
        let row = table[i];
        note_labour(report, &row);
        i += 1;
    }
    proof {
        lemma_take_all(spec_processes());
    }
}

/// Print every open item.
fn note_opens(report: &mut Report)
    ensures
        final(report)@ == after_all(old(report)@, each_of(spec_schema_open(), schema_open_notes())),
{
    let ghost start = report@;
    let table = schema_open();
    let mut i: usize = 0;
    while i < table.len()
        invariant
            i <= table@.len(),
            table@ == spec_schema_open(),
            report@ == after_all(start, each_of(spec_schema_open().take(i as int), schema_open_notes())),
        decreases table@.len() - i,
    {
        proof {
            lemma_each_of_step(spec_schema_open(), schema_open_notes(), i as int);
            lemma_after_all_append(
                start,
                each_of(spec_schema_open().take(i as int), schema_open_notes()),
                schema_open_notes()(table@[i as int]),
            );
        }
        let row = table[i];
        note_open(report, row);
        i += 1;
    }
    proof {
        lemma_take_all(spec_schema_open());
    }
}

/// Everything the substance and process audit prints, in order.
pub open spec fn schema_findings() -> Seq<Finding> {
    seq![Finding::Note(schema_header())] + each_of(spec_substances(), substance_findings())
        + each_of(spec_processes(), process_findings()) + each_of(spec_substances(), plan_findings())
        + each_of(spec_substances(), consumer_findings()) + each_of(
        spec_structures(),
        unused_findings("structure"@),
    ) + each_of(spec_tools(), unused_findings("tool"@)) + each_of(
        spec_skills(),
        unused_findings("skill"@),
    ) + each_of(spec_processes(), labour_notes()) + each_of(spec_schema_open(), schema_open_notes())
}

/// The substance and process gate, run where the tables are used.
///
/// Reports **every** defect, so a run is one reading rather than a queue, and prints the
/// open items beside them: what a green run does *not* mean.
pub fn verify(report: &mut Report)
    ensures
        final(report)@ == after_all(old(report)@, schema_findings()),
{
    let ghost r0 = report@;
    let header = glue(
        glue(
            glue(
                glue(glue(String::from_str("schema: "), show_usize(SUBSTANCES_LEN).as_str()), " substances, "),
                show_usize(PROCESSES_LEN).as_str(),
            ),
            " processes, ",
        ),
        show_usize(TIERS_LEN).as_str(),
    );
    report.note(glue(header, " tiers"));
    let ghost r1 = report@;
    check_substances(report);
    let ghost r2 = report@;
    check_processes(report);
    let ghost r3 = report@;
    check_plans(report);
    let ghost r4 = report@;
    check_consumers(report);
    let ghost r5 = report@;
    let rows = requirement_rows();
    check_unused(report, "structure", &structures(), &rows);
    let ghost r6 = report@;
    check_unused(report, "tool", &tools(), &rows);
    let ghost r7 = report@;
    check_unused(report, "skill", &skills(), &rows);
    let ghost r8 = report@;
    note_labours(report);
    let ghost r9 = report@;
    note_opens(report);
    proof {
        let a0 = seq![Finding::Note(schema_header())];
        let a1 = each_of(spec_substances(), substance_findings());
        let a2 = each_of(spec_processes(), process_findings());
        let a3 = each_of(spec_substances(), plan_findings());
        let a4 = each_of(spec_substances(), consumer_findings());
        let a5 = each_of(spec_structures(), unused_findings("structure"@));
        let a6 = each_of(spec_tools(), unused_findings("tool"@));
        let a7 = each_of(spec_skills(), unused_findings("skill"@));
        let a8 = each_of(spec_processes(), labour_notes());
        let a9 = each_of(spec_schema_open(), schema_open_notes());
        lemma_after_all_append(r0, a0, a1);
        lemma_after_all_append(r0, a0 + a1, a2);
        lemma_after_all_append(r0, a0 + a1 + a2, a3);
        lemma_after_all_append(r0, a0 + a1 + a2 + a3, a4);
        lemma_after_all_append(r0, a0 + a1 + a2 + a3 + a4, a5);
        lemma_after_all_append(r0, a0 + a1 + a2 + a3 + a4 + a5, a6);
        lemma_after_all_append(r0, a0 + a1 + a2 + a3 + a4 + a5 + a6, a7);
        lemma_after_all_append(r0, a0 + a1 + a2 + a3 + a4 + a5 + a6 + a7, a8);
        lemma_after_all_append(r0, a0 + a1 + a2 + a3 + a4 + a5 + a6 + a7 + a8, a9);
    }
}

} // verus!
