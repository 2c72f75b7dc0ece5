//! The sim effects' tables, and the audit that none of them is short.
//!
//! The declared rates are the only source of a structure's cost, upkeep, decay,
//! desirability and nuisance; a lookup that finds nothing is a defect, never a zero.
//! [`table_defects`] is that check as a list, so the audit can print it before anything
//! runs. What is declared and not computed is named in [`deferred`], with the consumer
//! it waits for.
use vstd::prelude::*;

use crate::lookup::{each_of, is_listed, lemma_each_of_step, lemma_take_all, listed};
use crate::materials::generated::{
    decay_families, desirability_families, nuisance_families, priced_parts, spec_decay_families,
    spec_desirability_families, spec_nuisance_families, spec_priced_parts, spec_upkeep_families,
    upkeep_families,
};
use crate::materials::world::{
    all_families, family_name, part, parts_of, spec_all_families, spec_part, spec_parts_of,
    Family, Part,
};
use crate::strings::{glue, views};

verus! {

/// Why conduction is declared and not computed.
pub const CONDUCTION_WAITS: &'static str = "its consumers are power lines, and there is no `BuildingKind::PowerLine` though `powerline.conductor` and `powerline.pylon` are declared parts with prices — so the family the table was written for has no structure to conduct through, and power still reaches a building by plant count rather than along a path";

/// Why surface speed is declared and not computed.
pub const SURFACE_SPEED_WAITS: &'static str = "it reads a tile's surface family and the world has no such thing yet: `RoadGraph::rebuild` inserts only tiles where `road` is true, so every graph node is already the table's own `road: 1.0` and every other entry is unreachable. It lands with the per-tile surface layer";

/// What is declared and not computed, and the consumer each one is waiting for: an
/// absence that is a record rather than a thing nobody noticed.
pub fn deferred() -> (r: Vec<(&'static str, &'static str)>)
    ensures
        r@ == seq![("conduction", CONDUCTION_WAITS), ("surface speed", SURFACE_SPEED_WAITS)],
{
    let r = vec![("conduction", CONDUCTION_WAITS), ("surface speed", SURFACE_SPEED_WAITS)];
    proof {
        assert(r@ =~= seq![("conduction", CONDUCTION_WAITS), ("surface speed", SURFACE_SPEED_WAITS)]);
    }
    r
}

/// The parts a structure is made of, for a caller that has to name them.
pub fn parts(part_prefix: &str) -> (r: Vec<Part>)
    ensures
        r@ == spec_parts_of(part_prefix@),
{
    parts_of(part_prefix)
}

/// The families in `fs`, once each, in the order they first appear.
pub open spec fn first_appearances(fs: Seq<Family>) -> Seq<Family>
    decreases fs.len(),
{
    if fs.len() == 0 {
        fs
    } else {
        let earlier = first_appearances(fs.drop_last());
        if earlier.contains(fs.last()) {
            earlier
        } else {
            earlier.push(fs.last())
        }
    }
}

/// The families of a run of parts, in part order.
pub open spec fn families_of(ps: Seq<Part>) -> Seq<Family> {
    ps.map_values(|p: Part| p.family)
}

/// The families a structure's parts are in, once each, in declaration order.
pub fn unique_families(part_prefix: &str) -> (r: Vec<Family>)
    ensures
        r@ == first_appearances(families_of(spec_parts_of(part_prefix@))),
{
    let ps = parts(part_prefix);
    let ghost fs = families_of(ps@);
    let mut out: Vec<Family> = Vec::new();
    let mut i: usize = 0;
    while i < ps.len()
        invariant
            i <= ps@.len(),
            fs == families_of(ps@),
            out@ == first_appearances(fs.take(i as int)),
        decreases ps@.len() - i,
    {
        let family = ps[i].family;
        proof {
            assert(fs.take(i as int + 1).drop_last() =~= fs.take(i as int));
            assert(fs.take(i as int + 1).last() == family);
        }
        let mut seen = false;
        let mut j: usize = 0;
        while j < out.len()
            invariant
                j <= out@.len(),
                seen == (exists|k: int| 0 <= k < j && out@[k] == family),
            decreases out@.len() - j,
        {
            if out[j] == family {
                seen = true;
            }
            j += 1;
        }
        if !seen {
            out.push(family);
        }
        i += 1;
    }
    proof {
        assert(fs.take(ps@.len() as int) =~= fs);
    }
    out
}

/// The defect a priced part that belongs to no structure is reported as.
pub open spec fn unpriced_text(name: Seq<char>) -> Seq<char> {
    "`"@ + name
        + "` is priced in PART_PRICE but is not a declared part of any structure: a price nothing can be charged"@
}

/// The defect a family missing one of its rates is reported as.
pub open spec fn missing_rate_text(name: Seq<char>, what: Seq<char>) -> Seq<char> {
    "`"@ + name + "` has no declared "@ + what
}

/// The defect a structure kind with no parts is reported as.
pub open spec fn partless_text(kind: Seq<char>) -> Seq<char> {
    "`"@ + kind
        + "` resolves to no declared parts, so it has no cost, no upkeep and nothing to decay"@
}

/// What a priced part contributes to the defects.
pub open spec fn price_defects() -> spec_fn(&'static str) -> Seq<Seq<char>> {
    |name: &'static str|
        if spec_part(name@) is None {
            seq![unpriced_text(name@)]
        } else {
            Seq::<Seq<char>>::empty()
        }
}

/// What one rate table contributes for one family.
pub open spec fn rate_defects(table: Seq<&'static str>, name: Seq<char>, what: Seq<char>) -> Seq<
    Seq<char>,
> {
    if listed(table, name) {
        Seq::<Seq<char>>::empty()
    } else {
        seq![missing_rate_text(name, what)]
    }
}

/// What a family contributes to the defects: each rate table it is missing from.
pub open spec fn family_defects() -> spec_fn(Family) -> Seq<Seq<char>> {
    |family: Family|
        rate_defects(spec_upkeep_families(), family_name(family), "upkeep"@) + rate_defects(
            spec_decay_families(),
            family_name(family),
            "decay"@,
        ) + rate_defects(spec_desirability_families(), family_name(family), "desirability"@)
            + rate_defects(spec_nuisance_families(), family_name(family), "nuisance"@)
}

/// What a structure kind contributes to the defects.
pub open spec fn kind_defects() -> spec_fn(Seq<char>) -> Seq<Seq<char>> {
    |kind: Seq<char>|
        if spec_parts_of(kind).len() == 0 {
            seq![partless_text(kind)]
        } else {
            Seq::<Seq<char>>::empty()
        }
}

/// The structure kinds that must resolve to parts.
pub open spec fn built_kinds() -> Seq<Seq<char>> {
    seq!["home"@, "shop"@, "factory"@, "power"@]
}

/// Every declared defect in the tables, in the order the audit finds them.
pub open spec fn spec_table_defects() -> Seq<Seq<char>> {
    each_of(spec_priced_parts(), price_defects()) + each_of(spec_all_families(), family_defects())
        + each_of(built_kinds(), kind_defects())
}

/// One rate table's defect for one family, pushed onto `defects`.
fn check_rate(
    defects: &mut Vec<String>,
    table: &Vec<&'static str>,
    name: &str,
    what: &str,
)
    ensures
        views(final(defects)@) == views(old(defects)@) + rate_defects(table@, name@, what@),
{
    if !is_listed(table, name) {
        let line = glue(glue(glue(String::from_str("`"), name), "` has no declared "), what);
        let ghost before = defects@;
        defects.push(line);
        proof {
            reveal_strlit("`");
            reveal_strlit("` has no declared ");
            assert(views(defects@) =~= views(before) + seq![missing_rate_text(name@, what@)]);
        }
    } else {
        proof {
            assert(views(defects@) =~= views(defects@) + Seq::<Seq<char>>::empty());
        }
    }
}

/// Every declared defect in the tables: a part with a price and no structure, a family
/// missing any of the rates it must have, a structure kind that resolves to no parts.
pub fn table_defects() -> (r: Vec<String>)
    ensures
        views(r@) == spec_table_defects(),
{
    let mut defects: Vec<String> = Vec::new();
    let priced = priced_parts();
    let mut i: usize = 0;
    while i < priced.len()
        invariant
            i <= priced@.len(),
            priced@ == spec_priced_parts(),
            views(defects@) == each_of(spec_priced_parts().take(i as int), price_defects()),
        decreases priced@.len() - i,
    {
        proof {
            lemma_each_of_step(spec_priced_parts(), price_defects(), i as int);
        }
        let name = priced[i];
        if part(name).is_none() {
            let line = glue(
                glue(String::from_str("`"), name),
                "` is priced in PART_PRICE but is not a declared part of any structure: a price nothing can be charged",
            );
            let ghost before = defects@;
            defects.push(line);
            proof {
                reveal_strlit("`");
                reveal_strlit(
                    "` is priced in PART_PRICE but is not a declared part of any structure: a price nothing can be charged",
                );
                assert(views(defects@) =~= views(before) + seq![unpriced_text(name@)]);
            }
        } else {
            proof {
                assert(views(defects@) =~= views(defects@) + Seq::<Seq<char>>::empty());
            }
        }
        i += 1;
    }
    proof {
        lemma_take_all(spec_priced_parts());
    }
    let ghost first = views(defects@);

    let upkeep = upkeep_families();
    let decay = decay_families();
    let desirability = desirability_families();
    let nuisance = nuisance_families();
    let families = all_families();
    let mut i: usize = 0;
    while i < families.len()
        invariant
            i <= families@.len(),
            families@ == spec_all_families(),
            upkeep@ == spec_upkeep_families(),
            decay@ == spec_decay_families(),
            desirability@ == spec_desirability_families(),
            nuisance@ == spec_nuisance_families(),
            views(defects@) == first + each_of(spec_all_families().take(i as int), family_defects()),
        decreases families@.len() - i,
    {
        proof {
            lemma_each_of_step(spec_all_families(), family_defects(), i as int);
        }
        let name = families[i].as_str();
        let ghost start = views(defects@);
        check_rate(&mut defects, &upkeep, name, "upkeep");
        check_rate(&mut defects, &decay, name, "decay");
        check_rate(&mut defects, &desirability, name, "desirability");
        check_rate(&mut defects, &nuisance, name, "nuisance");
        proof {
            reveal_strlit("upkeep");
            reveal_strlit("decay");
            reveal_strlit("desirability");
            reveal_strlit("nuisance");
            assert(views(defects@) =~= start + family_defects()(spec_all_families()[i as int]));
        }
        i += 1;
    }
    proof {
        lemma_take_all(spec_all_families());
    }
    let ghost second = views(defects@);

    let kinds: Vec<&'static str> = vec!["home", "shop", "factory", "power"];
    proof {
        reveal_strlit("home");
        reveal_strlit("shop");
        reveal_strlit("factory");
        reveal_strlit("power");
        assert(kinds@.map_values(|k: &'static str| k@) =~= built_kinds());
    }
    let mut i: usize = 0;
    while i < kinds.len()
        invariant
            i <= kinds@.len(),
            kinds@.map_values(|k: &'static str| k@) == built_kinds(),
            views(defects@) == second + each_of(built_kinds().take(i as int), kind_defects()),
        decreases kinds@.len() - i,
    {
        proof {
            lemma_each_of_step(built_kinds(), kind_defects(), i as int);
        }
        let kind = kinds[i];
        proof {
            assert(built_kinds()[i as int] == kind@);
        }
        let ps = parts_of(kind);
        if ps.len() == 0 {
            let line = glue(
                glue(String::from_str("`"), kind),
                "` resolves to no declared parts, so it has no cost, no upkeep and nothing to decay",
            );
            let ghost before = defects@;
            defects.push(line);
            proof {
                reveal_strlit("`");
                reveal_strlit(
                    "` resolves to no declared parts, so it has no cost, no upkeep and nothing to decay",
                );
                assert(views(defects@) =~= views(before) + seq![partless_text(kind@)]);
            }
        } else {
            proof {
                assert(views(defects@) =~= views(defects@) + Seq::<Seq<char>>::empty());
            }
        }
        i += 1;
    }
    proof {
        lemma_take_all(built_kinds());
        assert(views(defects@) =~= spec_table_defects());
    }
    defects
}

} // verus!
