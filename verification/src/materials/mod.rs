//! The material truth: one table, read by the icon pipeline and by the game.
//!
//! The declaration is generated into [`generated`], and both the interface and the world
//! read it. Three properties are load-bearing:
//!
//! * **The generated source is the artifact.** The tables are compiled in, so there is no
//!   runtime parse and no "file is missing" case.
//! * **Failing closed is the house rule.** The audit reports **every** defect it found
//!   rather than the first.
//! * **A mechanism is a claim with a number.** A family's colour arrives by a named
//!   physical mechanism.
//!
//! What the audit cannot check is printed as open, every run.
pub mod chain;
pub mod effects;
pub mod generated;
pub mod geology;
pub mod ledger;
pub mod schema;
pub mod surface;
pub mod world;

use vstd::prelude::*;

use crate::lookup::{
    each_of, first_of, first_upto, is_listed, lemma_each_of_step, lemma_take_all, listed,
};
use crate::materials::effects::{deferred, spec_table_defects, table_defects, CONDUCTION_WAITS, SURFACE_SPEED_WAITS};
use crate::materials::generated::{
    anchor_names, spec_schema_open, SCHEMA_OPEN_LEN, OPEN_ITEMS_LEN, divergences, icon_family_names, level_names, material_names, material_names_row,
    mechanism_names, open_items, spec_anchor_names, spec_divergences, spec_icon_family_names,
    spec_level_names, spec_material_names, spec_mechanism_names, spec_open_items,
    spec_processes, spec_skills, spec_structures, spec_substances, spec_surface_tokens,
    spec_token_names, spec_tools, spec_world_family_names, surface_tokens,
    surface_tokens_row, token_names, world_family_names, MaterialName, ANCHOR_NAMES_LEN,
    ICON_FAMILY_NAMES_LEN, LEVEL_NAMES_LEN, MATERIAL_NAMES_LEN, SURFACE_TOKENS_LEN,
    WORLD_FAMILY_NAMES_LEN, WORLD_SURFACES_LEN,
};
use crate::materials::schema::{declared_family, first_stays, schema_findings};
use crate::materials::world::{
    family_name, hue_name, level_name, part, parts, rules, spec_part, spec_parts, spec_rules,
    Part, PARTS_LEN, RULES_LEN,
};
use crate::strings::{decimal_nat, glue, same, show_usize, views};

verus! {

/// What a audit run found, as text: every line it prints, and the defects among them.
#[verifier::ext_equal]
pub struct ReportView {
    pub lines: Seq<Seq<char>>,
    pub defects: Seq<Seq<char>>,
}

/// One thing a audit says: a note it prints, or a defect it prints and counts.
pub enum Finding {
    Note(Seq<char>),
    Defect(Seq<char>),
}

/// The report after one more finding. A defect is printed with its marker in front.
pub open spec fn after(r: ReportView, f: Finding) -> ReportView {
    match f {
        Finding::Note(line) => ReportView { lines: r.lines.push(line), defects: r.defects },
        Finding::Defect(line) => ReportView {
            lines: r.lines.push("DEFECT: "@ + line),
            defects: r.defects.push(line),
        },
    }
}

/// The report after a run of findings, in order.
pub open spec fn after_all(r: ReportView, fs: Seq<Finding>) -> ReportView
    decreases fs.len(),
{
    if fs.len() == 0 {
        r
    } else {
        after(after_all(r, fs.drop_last()), fs.last())
    }
}

/// One more finding is the old run and then that finding.
pub proof fn lemma_after_all_push(r: ReportView, fs: Seq<Finding>, f: Finding)
    ensures
        after_all(r, fs.push(f)) == after(after_all(r, fs), f),
{
    assert(fs.push(f).drop_last() =~= fs);
}

/// Two runs of findings are one run after the other.
pub proof fn lemma_after_all_append(r: ReportView, a: Seq<Finding>, b: Seq<Finding>)
    ensures
        after_all(r, a + b) == after_all(after_all(r, a), b),
    decreases b.len(),
{
    if b.len() == 0 {
        assert(a + b =~= a);
    } else {
        lemma_after_all_append(r, a, b.drop_last());
        assert((a + b).drop_last() =~= a + b.drop_last());
    }
}

/// What a audit run found.
#[derive(Clone, Debug)]
pub struct Report {
    /// Every line the audit prints, defects included.
    pub lines: Vec<String>,
    /// The subset that is a defect. Empty means the requirement is present in the
    /// source, and nothing more than that.
    pub defects: Vec<String>,
}

impl View for Report {
    type V = ReportView;

    open spec fn view(&self) -> ReportView {
        ReportView { lines: views(self.lines@), defects: views(self.defects@) }
    }
}

impl Default for Report {
    fn default() -> (r: Self)
        ensures
            r@.lines.len() == 0,
            r@.defects.len() == 0,
    {
        let r = Report { lines: Vec::new(), defects: Vec::new() };
        proof {
            assert(r@.lines =~= Seq::<Seq<char>>::empty());
            assert(r@.defects =~= Seq::<Seq<char>>::empty());
        }
        r
    }
}

impl Report {
    /// Whether the run found no defect.
    pub fn ok(&self) -> (r: bool)
        ensures
            r == (self@.defects.len() == 0),
    {
        self.defects.len() == 0
    }

    /// Print a line that is not a defect.
    pub fn note(&mut self, line: String)
        ensures
            final(self)@ == after(old(self)@, Finding::Note(line@)),
            final(self)@ == after_all(old(self)@, seq![Finding::Note(line@)]),
    {
        proof {
            lemma_after_all_push(old(self)@, Seq::empty(), Finding::Note(line@));
            assert(Seq::<Finding>::empty().push(Finding::Note(line@)) =~= seq![Finding::Note(line@)]);
        }
        let ghost before = self.lines@;
        self.lines.push(line);
        proof {
            assert(views(self.lines@) =~= views(before).push(line@));
        }
    }

    /// Print a defect, marked, and count it.
    pub fn defect(&mut self, line: String)
        ensures
            final(self)@ == after(old(self)@, Finding::Defect(line@)),
            final(self)@ == after_all(old(self)@, seq![Finding::Defect(line@)]),
    {
        proof {
            lemma_after_all_push(old(self)@, Seq::empty(), Finding::Defect(line@));
            assert(Seq::<Finding>::empty().push(Finding::Defect(line@)) =~= seq![Finding::Defect(line@)]);
        }
        let mut marked = String::from_str("DEFECT: ");
        marked.append(line.as_str());
        let ghost lines_before = self.lines@;
        let ghost defects_before = self.defects@;
        self.lines.push(marked);
        self.defects.push(line);
        proof {
            assert(views(self.lines@) =~= views(lines_before).push("DEFECT: "@ + line@));
            assert(views(self.defects@) =~= views(defects_before).push(line@));
        }
    }
}

/// Whether a colour-table row answers to a name.
pub open spec fn material_named(name: Seq<char>) -> spec_fn(MaterialName) -> bool {
    |entry: MaterialName| entry.name@ == name
}

/// The first declared entry with this name.
pub open spec fn spec_material(name: Seq<char>) -> Option<MaterialName> {
    let k = first_of(spec_material_names(), material_named(name));
    if k < 0 {
        None
    } else {
        Some(spec_material_names()[k])
    }
}

/// One resolved entry, by its declared name.
pub fn material(name: &str) -> (r: Option<MaterialName>)
    ensures
        r == spec_material(name@),
{
    let mut i: usize = 0;
    while i < MATERIAL_NAMES_LEN
        invariant
            i <= MATERIAL_NAMES_LEN,
            first_upto(spec_material_names(), material_named(name@), i as int) == -1,
        decreases MATERIAL_NAMES_LEN - i,
    {
        let row = material_names_row(i);
        if same(row.name, name) {
            proof {
                first_stays(spec_material_names(), material_named(name@), i as int + 1);
            }
            return Some(row);
        }
        i += 1;
    }
    None
}

/// Whether a colour-table row is declared under this family, anchor and level.
pub open spec fn material_at(family: Seq<char>, hue: Seq<char>, level: Seq<char>) -> spec_fn(
    MaterialName,
) -> bool {
    |entry: MaterialName| entry.family@ == family && entry.hue@ == hue && entry.level@ == level
}

/// The first entry for a family, anchor and level.
pub open spec fn spec_material_of(family: Seq<char>, hue: Seq<char>, level: Seq<char>) -> Option<
    MaterialName,
> {
    let k = first_of(spec_material_names(), material_at(family, hue, level));
    if k < 0 {
        None
    } else {
        Some(spec_material_names()[k])
    }
}

/// The entry for a family, anchor and level, whichever vocabulary the caller has.
pub fn material_of(family: &str, hue: &str, level: &str) -> (r: Option<MaterialName>)
    ensures
        r == spec_material_of(family@, hue@, level@),
{
    let mut i: usize = 0;
    while i < MATERIAL_NAMES_LEN
        invariant
            i <= MATERIAL_NAMES_LEN,
            first_upto(spec_material_names(), material_at(family@, hue@, level@), i as int) == -1,
        decreases MATERIAL_NAMES_LEN - i,
    {
        let row = material_names_row(i);
        if same(row.family, family) && same(row.hue, hue) && same(row.level, level) {
            proof {
                first_stays(spec_material_names(), material_at(family@, hue@, level@), i as int + 1);
            }
            return Some(row);
        }
        i += 1;
    }
    None
}

/// The entry a world part resolves to.
pub open spec fn spec_material_of_part(name: Seq<char>) -> Option<MaterialName> {
    match spec_part(name) {
        None => None,
        Some(p) => spec_material_of(family_name(p.family), hue_name(p.hue), level_name(p.level)),
    }
}

/// A lookup for a caller that has the name of a world part rather than of a material.
pub fn material_of_part(name: &str) -> (r: Option<MaterialName>)
    ensures
        r == spec_material_of_part(name@),
{
    match part(name) {
        None => None,
        Some(p) => material_of(p.family.as_str(), p.hue.as_str(), p.level.as_str()),
    }
}

/// Whether a surface-token row answers to a name.
pub open spec fn token_named(name: Seq<char>) -> spec_fn((&'static str, &'static str)) -> bool {
    |entry: (&'static str, &'static str)| entry.0@ == name
}

/// The surface a token reads out, by the first row for that token.
pub open spec fn spec_surface_of_token(name: Seq<char>) -> Option<&'static str> {
    let k = first_of(spec_surface_tokens(), token_named(name));
    if k < 0 {
        None
    } else {
        Some(spec_surface_tokens()[k].1)
    }
}

/// The material a surface's token **is**: `Ground` is the grass's own reading, so a token
/// cannot quietly drift away from the material it claims to be.
pub fn surface_of_token(name: &str) -> (r: Option<&'static str>)
    ensures
        r == spec_surface_of_token(name@),
{
    let mut i: usize = 0;
    while i < SURFACE_TOKENS_LEN
        invariant
            i <= SURFACE_TOKENS_LEN,
            first_upto(spec_surface_tokens(), token_named(name@), i as int) == -1,
        decreases SURFACE_TOKENS_LEN - i,
    {
        let row = surface_tokens_row(i);
        if same(row.0, name) {
            proof {
                first_stays(spec_surface_tokens(), token_named(name@), i as int + 1);
            }
            return Some(row.1);
        }
        i += 1;
    }
    None
}

/// Whether a family name belongs to the icon set's seven: asked of the emitted list rather
/// than inferred from the world's families being "the rest".
pub fn is_icon_family(name: &str) -> (r: bool)
    ensures
        r == listed(spec_icon_family_names(), name@),
{
    let icons = icon_family_names();
    is_listed(&icons, name)
}

/// Whether a colour-table row is in an icon family.
pub open spec fn in_icon_family() -> spec_fn(MaterialName) -> bool {
    |entry: MaterialName| listed(spec_icon_family_names(), entry.family@)
}

/// How many colour-table rows are in an icon family.
pub open spec fn icon_entries() -> nat {
    spec_material_names().filter(in_icon_family()).len()
}

/// How many anchors the world reads: the declared anchors and the family's own.
pub open spec fn world_anchors() -> nat {
    (ANCHOR_NAMES_LEN + 1) as nat
}

/// The icon matrix the table declares: every icon family, at every anchor, at every level.
pub open spec fn expected_icon_entries() -> nat {
    ICON_FAMILY_NAMES_LEN as nat * world_anchors() * LEVEL_NAMES_LEN as nat
}

/// The audit's first line: what it read.
pub open spec fn materials_header() -> Seq<char> {
    "materials: "@ + decimal_nat(ICON_FAMILY_NAMES_LEN as nat) + " icon families (+"@
        + decimal_nat(WORLD_FAMILY_NAMES_LEN as nat) + " world-only), "@ + decimal_nat(
        world_anchors(),
    ) + " anchors, "@ + decimal_nat(LEVEL_NAMES_LEN as nat) + " levels, "@ + decimal_nat(
        MATERIAL_NAMES_LEN as nat,
    ) + " entries"@
}

/// What the icon matrix contributes.
pub open spec fn matrix_findings() -> Seq<Finding> {
    seq![Finding::Note(materials_header())] + if icon_entries() == expected_icon_entries() {
        Seq::<Finding>::empty()
    } else {
        seq![
            Finding::Defect(
                "the icon matrix resolves "@ + decimal_nat(icon_entries())
                    + " entries, not the declared "@ + decimal_nat(expected_icon_entries()),
            ),
        ]
    }
}

/// How many colour-table rows are in an icon family.
fn count_icon_entries() -> (r: usize)
    ensures
        r == icon_entries(),
{
    let icons = icon_family_names();
    let mut count: usize = 0;
    let mut i: usize = 0;
    while i < MATERIAL_NAMES_LEN
        invariant
            i <= MATERIAL_NAMES_LEN,
            icons@ == spec_icon_family_names(),
            count == spec_material_names().take(i as int).filter(in_icon_family()).len(),
            count <= i,
        decreases MATERIAL_NAMES_LEN - i,
    {
        let row = material_names_row(i);
        proof {
            let next = spec_material_names().take(i as int + 1);
            assert(next.drop_last() =~= spec_material_names().take(i as int));
            assert(next.last() == row);
            reveal(Seq::filter);
        }
        if is_listed(&icons, row.family) {
            count += 1;
        }
        i += 1;
    }
    proof {
        lemma_take_all(spec_material_names());
    }
    count
}

/// Print what the table holds, and report an icon matrix that is not whole.
fn check_matrix(report: &mut Report)
    ensures
        final(report)@ == after_all(old(report)@, matrix_findings()),
{
    let ghost start = report@;
    let line = glue(
        glue(
            glue(glue(String::from_str("materials: "), show_usize(ICON_FAMILY_NAMES_LEN).as_str()), " icon families (+"),
            show_usize(WORLD_FAMILY_NAMES_LEN).as_str(),
        ),
        " world-only), ",
    );
    let line = glue(glue(glue(line, show_usize(ANCHOR_NAMES_LEN + 1).as_str()), " anchors, "), show_usize(LEVEL_NAMES_LEN).as_str());
    let line = glue(glue(glue(line, " levels, "), show_usize(MATERIAL_NAMES_LEN).as_str()), " entries");
    report.note(line);
    let ghost middle = report@;
    let found = count_icon_entries();
    let expected: usize = ICON_FAMILY_NAMES_LEN * (ANCHOR_NAMES_LEN + 1) * LEVEL_NAMES_LEN;
    let ghost tail = if icon_entries() == expected_icon_entries() {
        Seq::<Finding>::empty()
    } else {
        seq![
            Finding::Defect(
                "the icon matrix resolves "@ + decimal_nat(icon_entries())
                    + " entries, not the declared "@ + decimal_nat(expected_icon_entries()),
            ),
        ]
    };
    if found != expected {
        let line = glue(
            glue(glue(String::from_str("the icon matrix resolves "), show_usize(found).as_str()), " entries, not the declared "),
            show_usize(expected).as_str(),
        );
        report.defect(line);
    }
    proof {
        lemma_after_all_append(start, seq![Finding::Note(materials_header())], tail);
    }
}

/// What a family with no declared colour mechanism contributes.
pub open spec fn mechanism_findings() -> spec_fn(&'static str) -> Seq<Finding> {
    |name: &'static str|
        if listed(spec_mechanism_names(), name@) {
            Seq::<Finding>::empty()
        } else {
            seq![Finding::Defect("`"@ + name@ + "` has no declared colour mechanism"@)]
        }
}

/// Report a family with no declared colour mechanism.
fn check_mechanism(report: &mut Report, name: &'static str, mechanisms: &Vec<&'static str>)
    requires
        mechanisms@ == spec_mechanism_names(),
    ensures
        final(report)@ == after_all(old(report)@, mechanism_findings()(name)),
{
    if !is_listed(mechanisms, name) {
        report.defect(glue(glue(String::from_str("`"), name), "` has no declared colour mechanism"));
    }
}

/// What one world part contributes: a family nobody declares, and a claim that resolves
/// to no entry.
pub open spec fn part_findings() -> spec_fn(Part) -> Seq<Finding> {
    |p: Part|
        (if declared_family(family_name(p.family)) {
            Seq::<Finding>::empty()
        } else {
            seq![Finding::Defect("`"@ + p.part@ + "` names a family the table does not declare"@)]
        }) + (if spec_material_of(family_name(p.family), hue_name(p.hue), level_name(p.level)) is Some {
            Seq::<Finding>::empty()
        } else {
            seq![Finding::Defect("`"@ + p.part@ + "` does not resolve to a declared entry"@)]
        })
}

/// Report what one world part gets wrong.
fn check_part(report: &mut Report, p: &Part, icons: &Vec<&'static str>, world: &Vec<&'static str>)
    requires
        icons@ == spec_icon_family_names(),
        world@ == spec_world_family_names(),
    ensures
        final(report)@ == after_all(old(report)@, part_findings()(*p)),
{
    let ghost start = report@;
    let family = p.family.as_str();
    let ghost first = if declared_family(family_name(p.family)) {
        Seq::<Finding>::empty()
    } else {
        seq![Finding::Defect("`"@ + p.part@ + "` names a family the table does not declare"@)]
    };
    if !is_listed(icons, family) && !is_listed(world, family) {
        report.defect(glue(glue(String::from_str("`"), p.part), "` names a family the table does not declare"));
    }
    let ghost middle = report@;
    let ghost second = if spec_material_of(family_name(p.family), hue_name(p.hue), level_name(p.level)) is Some {
        Seq::<Finding>::empty()
    } else {
        seq![Finding::Defect("`"@ + p.part@ + "` does not resolve to a declared entry"@)]
    };
    if material_of(family, p.hue.as_str(), p.level.as_str()).is_none() {
        report.defect(glue(glue(String::from_str("`"), p.part), "` does not resolve to a declared entry"));
    }
    proof {
        lemma_after_all_append(start, first, second);
    }
}

/// What a rule prints.
pub open spec fn rule_notes() -> spec_fn((&'static str, &'static str)) -> Seq<Finding> {
    |rule: (&'static str, &'static str)|
        seq![Finding::Note("materials: "@ + rule.0@ + " is a rule, not a row — "@ + rule.1@)]
}

/// Print a rule.
fn note_rule(report: &mut Report, rule: (&'static str, &'static str))
    ensures
        final(report)@ == after_all(old(report)@, rule_notes()(rule)),
{
    report.note(glue(glue(glue(String::from_str("materials: "), rule.0), " is a rule, not a row — "), rule.1));
}

/// What the two copies of the world mapping contribute.
pub open spec fn mapping_findings() -> Seq<Finding> {
    if PARTS_LEN + RULES_LEN == WORLD_SURFACES_LEN {
        Seq::<Finding>::empty()
    } else {
        seq![
            Finding::Defect(
                "the Rust mapping and the emitted copy describe different numbers of surfaces"@,
            ),
        ]
    }
}

/// What one surface token contributes: a surface that is not a row, a row that does not
/// resolve, or a token with no colour.
pub open spec fn token_findings() -> spec_fn((&'static str, &'static str)) -> Seq<Finding> {
    |row: (&'static str, &'static str)|
        if spec_part(row.1@) is None {
            seq![
                Finding::Defect(
                    "`"@ + row.0@ + "` claims to be `"@ + row.1@ + "`, which is not a declared row"@,
                ),
            ]
        } else if spec_material_of_part(row.1@) is None {
            seq![Finding::Defect("`"@ + row.1@ + "` does not resolve"@)]
        } else if !listed(spec_token_names(), row.0@) {
            seq![Finding::Defect("`"@ + row.0@ + "` has no colour in the table"@)]
        } else {
            Seq::<Finding>::empty()
        }
}

/// Report what one surface token gets wrong.
fn check_token(report: &mut Report, row: (&'static str, &'static str), tokens: &Vec<&'static str>)
    requires
        tokens@ == spec_token_names(),
    ensures
        final(report)@ == after_all(old(report)@, token_findings()(row)),
{
    let (name, surface) = row;
    if part(surface).is_none() {
        report.defect(
            glue(glue(glue(glue(String::from_str("`"), name), "` claims to be `"), surface), "`, which is not a declared row"),
        );
    } else if material_of_part(surface).is_none() {
        report.defect(glue(glue(String::from_str("`"), surface), "` does not resolve"));
    } else if !is_listed(tokens, name) {
        report.defect(glue(glue(String::from_str("`"), name), "` has no colour in the table"));
    }
}

/// What a declared divergence prints.
pub open spec fn divergence_notes() -> spec_fn((&'static str, &'static str, &'static str)) -> Seq<
    Finding,
> {
    |row: (&'static str, &'static str, &'static str)|
        seq![Finding::Note("materials: "@ + row.0@ + " moved — "@ + row.1@ + "; "@ + row.2@)]
}

/// Print a declared divergence.
fn note_divergence(report: &mut Report, row: (&'static str, &'static str, &'static str))
    ensures
        final(report)@ == after_all(old(report)@, divergence_notes()(row)),
{
    report.note(
        glue(glue(glue(glue(glue(String::from_str("materials: "), row.0), " moved — "), row.1), "; "), row.2),
    );
}

/// What an open item prints.
pub open spec fn open_notes() -> spec_fn(&'static str) -> Seq<Finding> {
    |item: &'static str| seq![Finding::Note("materials: open — "@ + item@)]
}

/// Print an open item.
fn note_open(report: &mut Report, item: &'static str)
    ensures
        final(report)@ == after_all(old(report)@, open_notes()(item)),
{
    report.note(glue(String::from_str("materials: open — "), item));
}

/// A table defect, reported as a defect.
pub open spec fn table_notes() -> spec_fn(Seq<char>) -> Seq<Finding> {
    |line: Seq<char>| seq![Finding::Defect(line)]
}

/// Report every table defect.
fn check_tables(report: &mut Report)
    ensures
        final(report)@ == after_all(old(report)@, each_of(spec_table_defects(), table_notes())),
{
    let ghost start = report@;
    let table = table_defects();
    let mut i: usize = 0;
    while i < table.len()
        invariant
            i <= table@.len(),
            views(table@) == spec_table_defects(),
            report@ == after_all(start, each_of(spec_table_defects().take(i as int), table_notes())),
        decreases table@.len() - i,
    {
        proof {
            lemma_each_of_step(spec_table_defects(), table_notes(), i as int);
            lemma_after_all_append(
                start,
                each_of(spec_table_defects().take(i as int), table_notes()),
                table_notes()(spec_table_defects()[i as int]),
            );
            assert(views(table@)[i as int] == table@[i as int]@);
        }
        let line = table[i].clone();
        report.defect(line);
        i += 1;
    }
    proof {
        lemma_take_all(spec_table_defects());
    }
}

/// What a deferred effect prints.
pub open spec fn deferred_notes() -> spec_fn((&'static str, &'static str)) -> Seq<Finding> {
    |row: (&'static str, &'static str)|
        seq![Finding::Note("materials: deferred — "@ + row.0@ + ": "@ + row.1@)]
}

/// Print a deferred effect.
fn note_deferred(report: &mut Report, row: (&'static str, &'static str))
    ensures
        final(report)@ == after_all(old(report)@, deferred_notes()(row)),
{
    report.note(glue(glue(glue(String::from_str("materials: deferred — "), row.0), ": "), row.1));
}

/// The effects declared and not computed, in order.
pub open spec fn spec_deferred() -> Seq<(&'static str, &'static str)> {
    seq![("conduction", CONDUCTION_WAITS), ("surface speed", SURFACE_SPEED_WAITS)]
}

/// Report every icon family with no declared colour mechanism.
fn check_mechanisms_icon(report: &mut Report)
    ensures
        final(report)@ == after_all(old(report)@, each_of(spec_icon_family_names(), mechanism_findings())),
{
    let ghost start = report@;
    let mechanisms = mechanism_names();
    let table = icon_family_names();
    let mut i: usize = 0;
    while i < table.len()
        invariant
            i <= table@.len(),
            table@ == spec_icon_family_names(),
            mechanisms@ == spec_mechanism_names(),
            report@ == after_all(start, each_of(spec_icon_family_names().take(i as int), mechanism_findings())),
        decreases table@.len() - i,
    {
        proof {
            lemma_each_of_step(spec_icon_family_names(), mechanism_findings(), i as int);
            lemma_after_all_append(
                start,
                each_of(spec_icon_family_names().take(i as int), mechanism_findings()),
                mechanism_findings()(table@[i as int]),
            );
        }
        let row = table[i];
        check_mechanism(report, row, &mechanisms);
        i += 1;
    }
    proof {
        lemma_take_all(spec_icon_family_names());
    }
}

/// Report every world family with no declared colour mechanism.
fn check_mechanisms_world(report: &mut Report)
    ensures
        final(report)@ == after_all(old(report)@, each_of(spec_world_family_names(), mechanism_findings())),
{
    let ghost start = report@;
    let mechanisms = mechanism_names();
    let table = world_family_names();
    let mut i: usize = 0;
    while i < table.len()
        invariant
            i <= table@.len(),
            table@ == spec_world_family_names(),
            mechanisms@ == spec_mechanism_names(),
            report@ == after_all(start, each_of(spec_world_family_names().take(i as int), mechanism_findings())),
        decreases table@.len() - i,
    {
        proof {
            lemma_each_of_step(spec_world_family_names(), mechanism_findings(), i as int);
            lemma_after_all_append(
                start,
                each_of(spec_world_family_names().take(i as int), mechanism_findings()),
                mechanism_findings()(table@[i as int]),
            );
        }
        let row = table[i];
        check_mechanism(report, row, &mechanisms);
        i += 1;
    }
    proof {
        lemma_take_all(spec_world_family_names());
    }
}

/// Report what every world part gets wrong.
fn check_parts(report: &mut Report)
    ensures
        final(report)@ == after_all(old(report)@, each_of(spec_parts(), part_findings())),
{
    let ghost start = report@;
    let icons = icon_family_names();
    let world = world_family_names();
    let table = parts();
    let mut i: usize = 0;
    while i < table.len()
        invariant
            i <= table@.len(),
            table@ == spec_parts(),
            icons@ == spec_icon_family_names(),
            world@ == spec_world_family_names(),
            report@ == after_all(start, each_of(spec_parts().take(i as int), part_findings())),
        decreases table@.len() - i,
    {
        proof {
            lemma_each_of_step(spec_parts(), part_findings(), i as int);
            lemma_after_all_append(
                start,
                each_of(spec_parts().take(i as int), part_findings()),
                part_findings()(table@[i as int]),
            );
        }
        let row = table[i];
        check_part(report, &row, &icons, &world);
        i += 1;
    }
    proof {
        lemma_take_all(spec_parts());
    }
}

/// Print every rule.
fn note_rules(report: &mut Report)
    ensures
        final(report)@ == after_all(old(report)@, each_of(spec_rules(), rule_notes())),
{
    let ghost start = report@;
    let table = rules();
    let mut i: usize = 0;
    while i < table.len()
        invariant
            i <= table@.len(),
            table@ == spec_rules(),
            report@ == after_all(start, each_of(spec_rules().take(i as int), rule_notes())),
        decreases table@.len() - i,
    {
        proof {
            lemma_each_of_step(spec_rules(), rule_notes(), i as int);
            lemma_after_all_append(
                start,
                each_of(spec_rules().take(i as int), rule_notes()),
                rule_notes()(table@[i as int]),
            );
        }
        let row = table[i];
        note_rule(report, row);
        i += 1;
    }
    proof {
        lemma_take_all(spec_rules());
    }
}

/// Report what every surface token gets wrong.
fn check_tokens(report: &mut Report)
    ensures
        final(report)@ == after_all(old(report)@, each_of(spec_surface_tokens(), token_findings())),
{
    let ghost start = report@;
    let tokens = token_names();
    let table = surface_tokens();
    let mut i: usize = 0;
    while i < table.len()
        invariant
            i <= table@.len(),
            table@ == spec_surface_tokens(),
            tokens@ == spec_token_names(),
            report@ == after_all(start, each_of(spec_surface_tokens().take(i as int), token_findings())),
        decreases table@.len() - i,
    {
        proof {
            lemma_each_of_step(spec_surface_tokens(), token_findings(), i as int);
            lemma_after_all_append(
                start,
                each_of(spec_surface_tokens().take(i as int), token_findings()),
                token_findings()(table@[i as int]),
            );
        }
        let row = table[i];
        check_token(report, row, &tokens);
        i += 1;
    }
    proof {
        lemma_take_all(spec_surface_tokens());
    }
}

/// Print every declared divergence.
fn note_divergences(report: &mut Report)
    ensures
        final(report)@ == after_all(old(report)@, each_of(spec_divergences(), divergence_notes())),
{
    let ghost start = report@;
    let table = divergences();
    let mut i: usize = 0;
    while i < table.len()
        invariant
            i <= table@.len(),
            table@ == spec_divergences(),
            report@ == after_all(start, each_of(spec_divergences().take(i as int), divergence_notes())),
        decreases table@.len() - i,
    {
        proof {
            lemma_each_of_step(spec_divergences(), divergence_notes(), i as int);
            lemma_after_all_append(
                start,
                each_of(spec_divergences().take(i as int), divergence_notes()),
                divergence_notes()(table@[i as int]),
            );
        }
        let row = table[i];
        note_divergence(report, row);
        i += 1;
    }
    proof {
        lemma_take_all(spec_divergences());
    }
}

/// Print every open item.
fn note_opens(report: &mut Report)
    ensures
        final(report)@ == after_all(old(report)@, each_of(spec_open_items(), open_notes())),
{
    let ghost start = report@;
    let table = open_items();
    let mut i: usize = 0;
    while i < table.len()
        invariant
            i <= table@.len(),
            table@ == spec_open_items(),
            report@ == after_all(start, each_of(spec_open_items().take(i as int), open_notes())),
        decreases table@.len() - i,
    {
        proof {
            lemma_each_of_step(spec_open_items(), open_notes(), i as int);
            lemma_after_all_append(
                start,
                each_of(spec_open_items().take(i as int), open_notes()),
                open_notes()(table@[i as int]),
            );
        }
        let row = table[i];
        note_open(report, row);
        i += 1;
    }
    proof {
        lemma_take_all(spec_open_items());
    }
}

/// Print every effect that is declared and not computed.
fn note_deferreds(report: &mut Report)
    ensures
        final(report)@ == after_all(old(report)@, each_of(spec_deferred(), deferred_notes())),
{
    let ghost start = report@;
    let table = deferred();
    let mut i: usize = 0;
    while i < table.len()
        invariant
            i <= table@.len(),
            table@ == spec_deferred(),
            report@ == after_all(start, each_of(spec_deferred().take(i as int), deferred_notes())),
        decreases table@.len() - i,
    {
        proof {
            lemma_each_of_step(spec_deferred(), deferred_notes(), i as int);
            lemma_after_all_append(
                start,
                each_of(spec_deferred().take(i as int), deferred_notes()),
                deferred_notes()(table@[i as int]),
            );
        }
        let row = table[i];
        note_deferred(report, row);
        i += 1;
    }
    proof {
        lemma_take_all(spec_deferred());
    }
}

/// Everything the material audit prints, in order: the table's own checks, then the
/// substance and process gate, then the effect tables.
pub open spec fn gate_findings() -> Seq<Finding> {
    matrix_findings() + each_of(spec_icon_family_names(), mechanism_findings()) + each_of(
        spec_world_family_names(),
        mechanism_findings(),
    ) + each_of(spec_parts(), part_findings()) + each_of(spec_rules(), rule_notes())
        + mapping_findings() + each_of(spec_surface_tokens(), token_findings()) + each_of(
        spec_divergences(),
        divergence_notes(),
    ) + each_of(spec_open_items(), open_notes()) + schema_findings() + each_of(
        spec_table_defects(),
        table_notes(),
    ) + each_of(spec_deferred(), deferred_notes())
}

/// The material gate. Run at startup and in tests; it reports **every** defect, so a run
/// is one reading rather than a queue.
///
/// The checks on colour numbers (chroma ceilings, lightness bounds, token channels) are
/// the frame's, and run beside this one where the colours are.
pub fn verify() -> (r: Report)
    ensures
        r@ == audit_report(),
{
    let mut report = Report::default();
    let ghost r0 = report@;
    assert(r0 == ReportView { lines: Seq::<Seq<char>>::empty(), defects: Seq::<Seq<char>>::empty() });
    check_matrix(&mut report);
    check_mechanisms_icon(&mut report);
    check_mechanisms_world(&mut report);
    check_parts(&mut report);
    note_rules(&mut report);
    let ghost r5 = report@;
    if PARTS_LEN + RULES_LEN != WORLD_SURFACES_LEN {
        report.defect(
            String::from_str("the Rust mapping and the emitted copy describe different numbers of surfaces"),
        );
    }
    let ghost r6 = report@;
    assert(r6 == after_all(r5, mapping_findings()));
    check_tokens(&mut report);
    note_divergences(&mut report);
    note_opens(&mut report);
    schema::verify(&mut report);
    check_tables(&mut report);
    note_deferreds(&mut report);
    proof {
        let a0 = matrix_findings();
        let a1 = each_of(spec_icon_family_names(), mechanism_findings());
        let a2 = each_of(spec_world_family_names(), mechanism_findings());
        let a3 = each_of(spec_parts(), part_findings());
        let a4 = each_of(spec_rules(), rule_notes());
        let a5 = mapping_findings();
        let a6 = each_of(spec_surface_tokens(), token_findings());
        let a7 = each_of(spec_divergences(), divergence_notes());
        let a8 = each_of(spec_open_items(), open_notes());
        let a9 = schema_findings();
        let a10 = each_of(spec_table_defects(), table_notes());
        let a11 = each_of(spec_deferred(), deferred_notes());
        lemma_after_all_append(r0, a0, a1);
        lemma_after_all_append(r0, a0 + a1, a2);
        lemma_after_all_append(r0, a0 + a1 + a2, a3);
        lemma_after_all_append(r0, a0 + a1 + a2 + a3, a4);
        lemma_after_all_append(r0, a0 + a1 + a2 + a3 + a4, a5);
        lemma_after_all_append(r0, a0 + a1 + a2 + a3 + a4 + a5, a6);
        lemma_after_all_append(r0, a0 + a1 + a2 + a3 + a4 + a5 + a6, a7);
        lemma_after_all_append(r0, a0 + a1 + a2 + a3 + a4 + a5 + a6 + a7, a8);
        lemma_after_all_append(r0, a0 + a1 + a2 + a3 + a4 + a5 + a6 + a7 + a8, a9);
        lemma_after_all_append(r0, a0 + a1 + a2 + a3 + a4 + a5 + a6 + a7 + a8 + a9, a10);
        lemma_after_all_append(r0, a0 + a1 + a2 + a3 + a4 + a5 + a6 + a7 + a8 + a9 + a10, a11);
    }
    report
}

/// What the material audit reports, from an empty report.
pub open spec fn audit_report() -> ReportView {
    after_all(ReportView { lines: Seq::empty(), defects: Seq::empty() }, gate_findings())
}

/// Whether every defect of a report is among its printed lines, marked.
pub open spec fn defects_printed(r: ReportView) -> bool {
    forall|i: int| 0 <= i < r.defects.len() ==> r.lines.contains("DEFECT: "@ + #[trigger] r.defects[i])
}

/// A finding that is a note is printed, whatever comes after it.
proof fn lemma_note_printed(r: ReportView, fs: Seq<Finding>, k: int, line: Seq<char>)
    requires
        0 <= k < fs.len(),
        fs[k] == Finding::Note(line),
    ensures
        after_all(r, fs).lines.contains(line),
    decreases fs.len(),
{
    let before = after_all(r, fs.drop_last());
    if k == fs.len() - 1 {
        assert(after_all(r, fs).lines == before.lines.push(line));
        assert(after_all(r, fs).lines[before.lines.len() as int] == line);
    } else {
        lemma_note_printed(r, fs.drop_last(), k, line);
        let i = choose|i: int| 0 <= i < before.lines.len() && before.lines[i] == line;
        assert(after_all(r, fs).lines[i] == line);
    }
}

/// Everything `f` gives for one entry is somewhere in what it gives for the whole run.
proof fn lemma_each_of_holds<T, U>(s: Seq<T>, f: spec_fn(T) -> Seq<U>, k: int, j: int) -> (i: int)
    requires
        0 <= k < s.len(),
        0 <= j < f(s[k]).len(),
    ensures
        0 <= i < each_of(s, f).len(),
        each_of(s, f)[i] == f(s[k])[j],
    decreases s.len(),
{
    let rest = each_of(s.drop_last(), f);
    if k == s.len() - 1 {
        rest.len() + j
    } else {
        lemma_each_of_holds(s.drop_last(), f, k, j)
    }
}

/// A run of findings keeps every defect printed.
proof fn lemma_defects_stay_printed(r: ReportView, fs: Seq<Finding>)
    requires
        defects_printed(r),
    ensures
        defects_printed(after_all(r, fs)),
    decreases fs.len(),
{
    if fs.len() > 0 {
        lemma_defects_stay_printed(r, fs.drop_last());
        let before = after_all(r, fs.drop_last());
        let now = after_all(r, fs);
        assert forall|i: int| 0 <= i < now.defects.len() implies now.lines.contains("DEFECT: "@ + #[trigger] now.defects[i]) by {
            match fs.last() {
                Finding::Note(line) => {
                    let j = choose|j: int| 0 <= j < before.lines.len() && before.lines[j] == "DEFECT: "@ + before.defects[i];
                    assert(now.lines[j] == before.lines[j]);
                },
                Finding::Defect(line) => {
                    if i < before.defects.len() {
                        let j = choose|j: int| 0 <= j < before.lines.len() && before.lines[j] == "DEFECT: "@ + before.defects[i];
                        assert(now.lines[j] == before.lines[j]);
                    } else {
                        assert(now.lines[before.lines.len() as int] == "DEFECT: "@ + line);
                    }
                },
            }
        }
    }
}

/// Every defect the material audit finds is also printed among its lines, marked as a
/// defect: the report hides none of what it counts.
pub proof fn every_defect_is_printed()
    ensures
        defects_printed(audit_report()),
{
    let empty = ReportView { lines: Seq::empty(), defects: Seq::empty() };
    lemma_defects_stay_printed(empty, gate_findings());
}

/// Every open item of the material table is printed by the audit, every run.
pub proof fn every_open_item_is_reported(k: int)
    requires
        0 <= k < OPEN_ITEMS_LEN,
    ensures
        audit_report().lines.contains("materials: open — "@ + spec_open_items()[k]@),
{
    let a = matrix_findings() + each_of(spec_icon_family_names(), mechanism_findings()) + each_of(
        spec_world_family_names(),
        mechanism_findings(),
    ) + each_of(spec_parts(), part_findings()) + each_of(spec_rules(), rule_notes())
        + mapping_findings() + each_of(spec_surface_tokens(), token_findings()) + each_of(
        spec_divergences(),
        divergence_notes(),
    );
    let opens = each_of(spec_open_items(), open_notes());
    let b = schema_findings() + each_of(spec_table_defects(), table_notes()) + each_of(
        spec_deferred(),
        deferred_notes(),
    );
    assert(gate_findings() =~= a + opens + b);
    let i = lemma_each_of_holds(spec_open_items(), open_notes(), k, 0);
    let line = "materials: open — "@ + spec_open_items()[k]@;
    assert((a + opens + b)[a.len() + i] == Finding::Note(line));
    let empty = ReportView { lines: Seq::empty(), defects: Seq::empty() };
    lemma_note_printed(empty, gate_findings(), a.len() + i, line);
}

/// Every open item of the substance and process tables is printed by the audit, every run.
pub proof fn every_schema_open_item_is_reported(k: int)
    requires
        0 <= k < SCHEMA_OPEN_LEN,
    ensures
        audit_report().lines.contains("schema: open — "@ + spec_schema_open()[k]@),
{
    let a = matrix_findings() + each_of(spec_icon_family_names(), mechanism_findings()) + each_of(
        spec_world_family_names(),
        mechanism_findings(),
    ) + each_of(spec_parts(), part_findings()) + each_of(spec_rules(), rule_notes())
        + mapping_findings() + each_of(spec_surface_tokens(), token_findings()) + each_of(
        spec_divergences(),
        divergence_notes(),
    ) + each_of(spec_open_items(), open_notes());
    let s = schema_findings();
    let b = each_of(spec_table_defects(), table_notes()) + each_of(spec_deferred(), deferred_notes());
    assert(gate_findings() =~= a + s + b);
    let sa = seq![Finding::Note(schema::schema_header())] + each_of(spec_substances(), schema::substance_findings())
        + each_of(spec_processes(), schema::process_findings()) + each_of(spec_substances(), schema::plan_findings())
        + each_of(spec_substances(), schema::consumer_findings()) + each_of(
        spec_structures(),
        schema::unused_findings("structure"@),
    ) + each_of(spec_tools(), schema::unused_findings("tool"@)) + each_of(
        spec_skills(),
        schema::unused_findings("skill"@),
    ) + each_of(spec_processes(), schema::labour_notes());
    let opens = each_of(spec_schema_open(), schema::schema_open_notes());
    assert(s =~= sa + opens);
    let i = lemma_each_of_holds(spec_schema_open(), schema::schema_open_notes(), k, 0);
    let line = "schema: open — "@ + spec_schema_open()[k]@;
    assert((a + s + b)[a.len() + sa.len() + i] == Finding::Note(line));
    let empty = ReportView { lines: Seq::empty(), defects: Seq::empty() };
    lemma_note_printed(empty, gate_findings(), a.len() + sa.len() + i, line);
}

} // verus!
