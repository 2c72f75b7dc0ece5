//! Bringing work to an end: a tick of labour on every claimed task, and each task that
//! tick finishes drawn out of the ground and raised, or refused with the shortfall it met.
use vstd::prelude::*;

use crate::exact::fits_i64;
use crate::lookup::{first_of, first_upto};
use crate::materials::schema::first_stays;
use crate::sim::citizen::{Citizen, CitizenState};
use crate::sim::city::{
    buildable,
    finished_ids,
    id_is,
    jobs_fit,
    jobs_in,
    lemma_jobs_nonnegative,
    lemma_jobs_update,
    lemma_recount_update,
    recounted,
    worked,
    City,
};
use crate::sim::ground::{city_audit, dug, draws_of, drawn, found, ground_audit, left_in, lines_of, take_of};
use crate::sim::task::Task;
use crate::sim::{
    claim_text,
    derived_claim,
    lineage_fits,
    lineage_sum,
    spec_building_mass,
    Building,
    BuildingKind,
    MaterialLineage,
    MaterialShortfall,
    Tile,
    Zone,
    BUILD_TICKS,
};

verus! {

/// What a run of takes adds up to.
pub open spec fn taken_total(takes: Seq<int>) -> int
    decreases takes.len(),
{
    if takes.len() == 0 {
        0
    } else {
        taken_total(takes.drop_last()) + takes.last()
    }
}

/// Whether a task can be drawn on a ground of `tiles` tiles: its site and every tile of
/// its plan lie on the ground, and its plan's lines are no negative amounts whose running
/// totals count in 64 bits.
pub open spec fn task_drawable(t: Task, tiles: nat) -> bool {
    &&& t.site < tiles
    &&& lineage_fits(t.material@)
    &&& forall|j: int|
        0 <= j < t.material@.len() ==> #[trigger] t.material@[j].tile < tiles && t.material@[j].grams >= 0
}

/// Whether every task the city holds can be drawn on its ground.
pub open spec fn tasks_sound(city: City) -> bool {
    forall|i: int| 0 <= i < city.tasks@.len() ==> #[trigger] task_drawable(city.tasks@[i], city.ground.tiles@.len())
}

/// Whether `after` is `before` once the task numbered `id` is over: a citizen who had
/// taken it is free of it and on the way home; everybody else is as they were.
pub open spec fn released(after: Citizen, before: Citizen, id: u32) -> bool {
    if before.task == Some(id) {
        after == (Citizen { task: None, state: CitizenState::ToHome, ..before })
    } else {
        after == before
    }
}

/// Whether `after` is the city `before` once the task numbered `id` has been brought to an
/// end, with `refusal` what that gave. The first task with that id is taken off the list,
/// its plan is drawn out of the ground whatever follows, and if the draw covers what the
/// task requires and the site can still take the structure, the structure stands on it
/// and records the draw, line for line; otherwise the draw is refused with what it found.
/// Whoever had taken the task walks home. With no such task nothing changes.
pub open spec fn completed(before: City, after: City, id: u32, refusal: Option<MaterialShortfall>) -> bool {
    let pos = first_of(before.tasks@, id_is(id));
    &&& after.ground.width == before.ground.width
    &&& after.ground.height == before.ground.height
    &&& after.ground.seed == before.ground.seed
    &&& after.clock == before.clock
    &&& after.next_citizen_id == before.next_citizen_id
    &&& after.next_task_id == before.next_task_id
    &&& after.starved@ == before.starved@
    &&& after.roads == before.roads
    &&& after.road_access@ == before.road_access@
    &&& if pos < 0 {
        &&& refusal is None
        &&& after.ground == before.ground
        &&& after.buildings@ == before.buildings@
        &&& after.citizens@ == before.citizens@
        &&& after.tasks@ == before.tasks@
        &&& after.next_building_id == before.next_building_id
        &&& after.stats == before.stats
    } else {
        let task = before.tasks@[pos];
        let site = task.site;
        let d = drawn(
            before.ground.seed,
            before.ground.width,
            before.ground.tiles@,
            draws_of(lines_of(task.material@)),
        );
        let got = taken_total(d.0);
        let mid = d.1;
        let here = mid[site as int];
        let open = got >= task.requires_g && buildable(here) && (task.kind != BuildingKind::PowerPlant || ((
        site as int) < before.road_access@.len() && before.road_access@[site as int]));
        &&& after.tasks@ == before.tasks@.remove(pos)
        &&& after.citizens@.len() == before.citizens@.len()
        &&& forall|i: int|
            0 <= i < before.citizens@.len() ==> released(#[trigger] after.citizens@[i], before.citizens@[i], id)
        &&& if open {
            let index = before.buildings@.len();
            let b = after.buildings@[index as int];
            &&& refusal is None
            &&& after.next_building_id == before.next_building_id + 1
            &&& after.buildings@.len() == index + 1
            &&& after.buildings@.take(index as int) == before.buildings@
            &&& b.id == before.next_building_id && b.kind == task.kind && b.tile == site
            &&& b.level == 1 && b.built_tick == before.clock.tick
            &&& b.ready_tick == before.clock.tick + BUILD_TICKS
            &&& b.retired is None && b.retired_tick is None && !b.powered
            &&& b.occupants == 0 && !b.repair_filed
            &&& claim_text(b.material_as_built) == derived_claim(task.kind)
            &&& b.material_from@.len() == task.material@.len()
            &&& forall|j: int|
                0 <= j < task.material@.len() ==> {
                    &&& #[trigger] b.material_from@[j].tile == task.material@[j].tile
                    &&& b.material_from@[j].substance@ == task.material@[j].substance@
                    &&& b.material_from@[j].grams == d.0[j]
                }
            &&& after.ground.tiles@ == mid.update(
                site as int,
                Tile { building: Some(index as u32), zone: Zone::Unzoned, ..here },
            )
            &&& after.stats == recounted(
                after.ground.tiles@,
                after.buildings@,
                before.citizens@,
                before.stats.brownout,
                before.stats.commute_failures,
            )
        } else {
            &&& refusal matches Some(s) && s.site == site && s.family@ == task.family@ && s.wanted_g
                == task.requires_g && s.found_g == got
            &&& after.ground.tiles@ == mid
            &&& after.buildings@ == before.buildings@
            &&& after.next_building_id == before.next_building_id
            &&& after.stats == before.stats
        }
    }
}

/// Whether `after` is the city `before` after one tick of labour: each task as
/// [`worked`] leaves it, and nothing else touched.
pub open spec fn laboured(before: City, after: City) -> bool {
    &&& after.tasks@.len() == before.tasks@.len()
    &&& forall|i: int|
        0 <= i < before.tasks@.len() ==> #[trigger] after.tasks@[i] == worked(
            before.ground.width,
            before.citizens@,
            before.tasks@[i],
        ).0
    &&& after.ground == before.ground
    &&& after.buildings@ == before.buildings@
    &&& after.citizens@ == before.citizens@
    &&& after.clock == before.clock
    &&& after.stats == before.stats
    &&& after.next_building_id == before.next_building_id
    &&& after.next_citizen_id == before.next_citizen_id
    &&& after.next_task_id == before.next_task_id
    &&& after.starved@ == before.starved@
    &&& after.roads == before.roads
    &&& after.road_access@ == before.road_access@
}

/// The refusals among what a run of completions gave, in order.
pub open spec fn refusals(outs: Seq<Option<MaterialShortfall>>) -> Seq<MaterialShortfall>
    decreases outs.len(),
{
    if outs.len() == 0 {
        Seq::empty()
    } else {
        let rest = refusals(outs.drop_last());
        match outs.last() {
            Some(s) => rest.push(s),
            None => rest,
        }
    }
}

/// Whether `after` is the city `before` once a tick of labour has taken it to `w` and
/// every task that tick finished has then been completed, in the order the tasks stood,
/// through the cities `steps`, each completion giving what `outs` holds.
pub open spec fn worked_through(
    before: City,
    w: City,
    steps: Seq<City>,
    outs: Seq<Option<MaterialShortfall>>,
    after: City,
) -> bool {
    let ids = finished_ids(before.ground.width, before.citizens@, before.tasks@, before.tasks@.len() as int);
    &&& laboured(before, w)
    &&& steps.len() == ids.len() + 1
    &&& outs.len() == ids.len()
    &&& steps[0] == w
    &&& steps.last() == after
    &&& forall|k: int| 0 <= k < ids.len() ==> completed(steps[k], steps[k + 1], ids[k], #[trigger] outs[k])
}

/// A tick of labour finishes no more tasks than there are.
proof fn lemma_finished_len(width: u32, cs: Seq<Citizen>, ts: Seq<Task>, n: int)
    requires
        0 <= n,
    ensures
        finished_ids(width, cs, ts, n).len() <= n,
    decreases n,
{
    if n > 0 {
        lemma_finished_len(width, cs, ts, n - 1);
    }
}

/// What the first `n` tiles have given up, in grams.
pub open spec fn dug_total(tiles: Seq<Tile>, n: int) -> int
    decreases n,
{
    if n <= 0 {
        0
    } else {
        dug_total(tiles, n - 1) + tiles[n - 1].extracted_g
    }
}

/// A city's material balance as its mass audit reads it: what its ground has given up,
/// less what stands in it, its structures and its ruins.
pub open spec fn balance(c: City) -> int {
    let n = c.ground.tiles@.len() as int;
    let (ground, taken) = ground_audit(c.ground.seed, c.ground.width, c.ground.tiles@, n);
    taken - city_audit(ground, c.buildings@, c.buildings@.len() as int).1
}

/// The audit's total taken is what the tiles have given up.
proof fn lemma_audit_taken(seed: u64, width: u32, tiles: Seq<Tile>, n: int)
    ensures
        ground_audit(seed, width, tiles, n).1 == dug_total(tiles, n),
    decreases n,
{
    if n > 0 {
        lemma_audit_taken(seed, width, tiles, n - 1);
    }
}

/// Changing one tile changes what the tiles have given up by its own change.
proof fn lemma_dug_update(tiles: Seq<Tile>, t: int, tile: Tile, n: int)
    requires
        0 <= t < tiles.len(),
        0 <= n <= tiles.len(),
    ensures
        dug_total(tiles.update(t, tile), n) == dug_total(tiles, n) + if t < n {
            tile.extracted_g - tiles[t].extracted_g
        } else {
            0
        },
    decreases n,
{
    if n > 0 {
        lemma_dug_update(tiles, t, tile, n - 1);
    }
}

/// One take first, then the rest, adds up as the rest and then the one.
proof fn lemma_taken_front(x: int, rest: Seq<int>)
    ensures
        taken_total(seq![x] + rest) == x + taken_total(rest),
    decreases rest.len(),
{
    let whole = seq![x] + rest;
    if rest.len() > 0 {
        lemma_taken_front(x, rest.drop_last());
        assert(whole.drop_last() =~= seq![x] + rest.drop_last());
        assert(whole.last() == rest.last());
        assert(taken_total(whole) == taken_total(whole.drop_last()) + whole.last());
        assert(taken_total(rest) == taken_total(rest.drop_last()) + rest.last());
    } else {
        assert(whole.drop_last() =~= Seq::<int>::empty());
        assert(whole.last() == x);
        assert(rest =~= Seq::<int>::empty());
        assert(taken_total(whole) == taken_total(whole.drop_last()) + whole.last());
    }
}

/// Takes of nothing below none add up to nothing below none.
proof fn lemma_taken_nonnegative(takes: Seq<int>)
    requires
        forall|i: int| 0 <= i < takes.len() ==> takes[i] >= 0,
    ensures
        taken_total(takes) >= 0,
    decreases takes.len(),
{
    if takes.len() > 0 {
        lemma_taken_nonnegative(takes.drop_last());
    }
}

/// Drawing lines out of the ground gives up, over all its tiles, exactly what the draw
/// took, and leaves as many tiles.
proof fn lemma_dug_drawn(seed: u64, width: u32, tiles: Seq<Tile>, lines: Seq<(u32, int)>)
    requires
        forall|i: int| 0 <= i < lines.len() ==> (#[trigger] lines[i].0 as int) < tiles.len(),
    ensures
        drawn(seed, width, tiles, lines).1.len() == tiles.len(),
        dug_total(drawn(seed, width, tiles, lines).1, tiles.len() as int) == dug_total(tiles, tiles.len() as int)
            + taken_total(drawn(seed, width, tiles, lines).0),
    decreases lines.len(),
{
    if lines.len() == 0 {
        assert(taken_total(Seq::<int>::empty()) == 0);
    } else {
        let t = lines[0].0;
        let left = left_in(seed, width, tiles, t);
        let taken = take_of(left, lines[0].1);
        let next = tiles.update(t as int, dug(tiles[t as int], taken));
        assert(lines[0].0 < tiles.len());
        assert(tiles[t as int].extracted_g + taken <= i64::MAX) by {
            if taken > 0 {
                let found = found(seed, width, t)->Some_0;
                assert(taken <= found.mass_g - tiles[t as int].extracted_g);
            }
        }
        assert(taken >= 0);
        assert forall|i: int| 0 <= i < lines.drop_first().len() implies (#[trigger] lines.drop_first()[i].0 as int)
            < next.len() by {
            assert(lines.drop_first()[i] == lines[i + 1]);
        }
        lemma_dug_drawn(seed, width, next, lines.drop_first());
        lemma_dug_update(tiles, t as int, dug(tiles[t as int], taken), tiles.len() as int);
        let rest = drawn(seed, width, next, lines.drop_first());
        lemma_taken_front(taken, rest.0);
    }
}

/// The audit of a run of structures reads only the structures counted, and the total
/// standing does not read the listing it starts from.
proof fn lemma_city_standing(s1: Seq<(Seq<char>, i64)>, s2: Seq<(Seq<char>, i64)>, a: Seq<Building>, b: Seq<Building>, n: int)
    requires
        0 <= n <= a.len(),
        n <= b.len(),
        forall|q: int| 0 <= q < n ==> #[trigger] a[q] == b[q],
    ensures
        city_audit(s1, a, n).1 == city_audit(s2, b, n).1,
    decreases n,
{
    if n > 0 {
        lemma_city_standing(s1, s2, a, b, n - 1);
        assert(a[n - 1] == b[n - 1]);
    }
}

/// The city is made of what it dug: bringing a task to an end never takes the city's
/// material balance (what its ground has given up, less what stands in it) below where it
/// was, where the task requires at least its structure's mass. A structure raised stands
/// no more than the draw gave up for it; a refused draw stands nothing up at all.
pub proof fn law_completion_keeps_the_balance(
    before: City,
    after: City,
    id: u32,
    refusal: Option<MaterialShortfall>,
)
    requires
        completed(before, after, id, refusal),
        tasks_sound(before),
        forall|i: int|
            0 <= i < before.tasks@.len() ==> (spec_building_mass(#[trigger] before.tasks@[i].kind, 1) matches Some(
                m) && before.tasks@[i].requires_g >= m),
    ensures
        balance(after) >= balance(before),
{
    let pos = first_of(before.tasks@, id_is(id));
    let n = before.ground.tiles@.len() as int;
    let seed = before.ground.seed;
    let width = before.ground.width;
    let g0 = ground_audit(seed, width, before.ground.tiles@, n);
    lemma_audit_taken(seed, width, before.ground.tiles@, n);
    if pos >= 0 {
        crate::lookup::lemma_first_upto(before.tasks@, id_is(id), before.tasks@.len() as int);
        let task = before.tasks@[pos];
        assert(task_drawable(task, before.ground.tiles@.len()));
        let lines = draws_of(lines_of(task.material@));
        let d = drawn(seed, width, before.ground.tiles@, lines);
        assert forall|i: int| 0 <= i < lines.len() implies (#[trigger] lines[i].0 as int) < before.ground.tiles@.len() by {
            assert(lines[i].0 == task.material@[i].tile);
        }
        lemma_dug_drawn(seed, width, before.ground.tiles@, lines);
        lemma_drawn_bounded(seed, width, before.ground.tiles@, lines);
        lemma_taken_nonnegative(d.0);
        let mid = d.1;
        let m = after.ground.tiles@.len() as int;
        assert(m == n);
        let g1 = ground_audit(seed, width, after.ground.tiles@, m);
        lemma_audit_taken(seed, width, after.ground.tiles@, m);
        let here = mid[task.site as int];
        let got = taken_total(d.0);
        let open = got >= task.requires_g && buildable(here) && (task.kind != BuildingKind::PowerPlant || ((
        task.site as int) < before.road_access@.len() && before.road_access@[task.site as int]));
        if open {
            let index = before.buildings@.len() as int;
            lemma_dug_update(
                mid,
                task.site as int,
                Tile { building: Some(index as u32), zone: Zone::Unzoned, ..here },
                n,
            );
            assert(dug_total(after.ground.tiles@, n) == dug_total(mid, n));
            lemma_city_standing(g1.0, g0.0, after.buildings@, before.buildings@, index);
            assert(after.buildings@[index - 0] == after.buildings@[index]);
            let b = after.buildings@[index];
            assert(b.kind == task.kind && b.level == 1);
            assert(spec_building_mass(task.kind, 1) is Some);
            assert(after.buildings@.len() == index + 1);
            assert(city_audit(g1.0, after.buildings@, index + 1).1 <= city_audit(g1.0, after.buildings@, index).1
                + spec_building_mass(task.kind, 1)->Some_0);
        } else {
            lemma_city_standing(g1.0, g0.0, after.buildings@, before.buildings@, before.buildings@.len() as int);
        }
    } else {
        assert(after.ground.tiles@ == before.ground.tiles@);
    }
}

/// Whether every task of a city requires at least its structure's declared mass.
pub open spec fn tasks_weigh(c: City) -> bool {
    forall|i: int|
        0 <= i < c.tasks@.len() ==> (spec_building_mass(#[trigger] c.tasks@[i].kind, 1) matches Some(m)
            && c.tasks@[i].requires_g >= m)
}

/// A completion keeps every task that is left drawable and weighed.
proof fn lemma_completed_keeps_tasks(before: City, after: City, id: u32, refusal: Option<MaterialShortfall>)
    requires
        completed(before, after, id, refusal),
        tasks_sound(before),
        tasks_weigh(before),
    ensures
        tasks_sound(after),
        tasks_weigh(after),
{
    let pos = first_of(before.tasks@, id_is(id));
    if pos >= 0 {
        crate::lookup::lemma_first_upto(before.tasks@, id_is(id), before.tasks@.len() as int);
        let task = before.tasks@[pos];
        assert(task_drawable(task, before.ground.tiles@.len()));
        let lines = draws_of(lines_of(task.material@));
        assert forall|i: int| 0 <= i < lines.len() implies (#[trigger] lines[i].0 as int) < before.ground.tiles@.len() by {
            assert(lines[i].0 == task.material@[i].tile);
        }
        lemma_dug_drawn(before.ground.seed, before.ground.width, before.ground.tiles@, lines);
        assert(after.ground.tiles@.len() == before.ground.tiles@.len());
        assert forall|i: int| 0 <= i < after.tasks@.len() implies #[trigger] task_drawable(
            after.tasks@[i],
            after.ground.tiles@.len(),
        ) && (spec_building_mass(after.tasks@[i].kind, 1) matches Some(m) && after.tasks@[i].requires_g >= m) by {
            if i < pos {
                assert(after.tasks@[i] == before.tasks@[i]);
                assert(task_drawable(before.tasks@[i], before.ground.tiles@.len()));
            } else {
                assert(after.tasks@[i] == before.tasks@[i + 1]);
                assert(task_drawable(before.tasks@[i + 1], before.ground.tiles@.len()));
            }
        }
    }
}

/// Work keeps the city made of what it dug: a tick of labour and the completions it
/// brings never take the material balance below where it was, where every task requires
/// at least its structure's mass.
pub proof fn law_work_keeps_the_balance(
    before: City,
    w: City,
    steps: Seq<City>,
    outs: Seq<Option<MaterialShortfall>>,
    after: City,
)
    requires
        worked_through(before, w, steps, outs, after),
        tasks_sound(before),
        tasks_weigh(before),
    ensures
        balance(after) >= balance(before),
{
    let ids = finished_ids(before.ground.width, before.citizens@, before.tasks@, before.tasks@.len() as int);
    assert forall|i: int| 0 <= i < w.tasks@.len() implies #[trigger] task_drawable(w.tasks@[i], w.ground.tiles@.len())
        && (spec_building_mass(w.tasks@[i].kind, 1) matches Some(m) && w.tasks@[i].requires_g >= m) by {
        assert(w.tasks@[i] == worked(before.ground.width, before.citizens@, before.tasks@[i]).0);
        assert(task_drawable(before.tasks@[i], before.ground.tiles@.len()));
    }
    lemma_steps_keep_the_balance(steps, outs, ids, ids.len() as int);
}

/// Along a run of completions from a city whose tasks are drawable and weighed, the
/// balance never falls and the tasks stay drawable and weighed.
proof fn lemma_steps_keep_the_balance(
    steps: Seq<City>,
    outs: Seq<Option<MaterialShortfall>>,
    ids: Seq<u32>,
    k: int,
)
    requires
        0 <= k <= ids.len(),
        steps.len() == ids.len() + 1,
        outs.len() == ids.len(),
        forall|j: int| 0 <= j < ids.len() ==> completed(steps[j], steps[j + 1], ids[j], #[trigger] outs[j]),
        tasks_sound(steps[0]),
        tasks_weigh(steps[0]),
    ensures
        tasks_sound(steps[k]),
        tasks_weigh(steps[k]),
        balance(steps[k]) >= balance(steps[0]),
    decreases k,
{
    if k > 0 {
        lemma_steps_keep_the_balance(steps, outs, ids, k - 1);
        assert(completed(steps[k - 1], steps[k], ids[k - 1], outs[k - 1]));
        law_completion_keeps_the_balance(steps[k - 1], steps[k], ids[k - 1], outs[k - 1]);
        lemma_completed_keeps_tasks(steps[k - 1], steps[k], ids[k - 1], outs[k - 1]);
    }
}

/// A draw takes, line by line, nothing below none and nothing above what the line asks.
proof fn lemma_drawn_bounded(seed: u64, width: u32, tiles: Seq<Tile>, lines: Seq<(u32, int)>)
    ensures
        drawn(seed, width, tiles, lines).0.len() == lines.len(),
        forall|i: int|
            0 <= i < lines.len() ==> 0 <= #[trigger] drawn(seed, width, tiles, lines).0[i] && (lines[i].1 >= 0
                ==> drawn(seed, width, tiles, lines).0[i] <= lines[i].1),
    decreases lines.len(),
{
    if lines.len() > 0 {
        let t = lines[0].0;
        let taken = take_of(left_in(seed, width, tiles, t), lines[0].1);
        let next = tiles.update(t as int, dug(tiles[t as int], taken));
        lemma_drawn_bounded(seed, width, next, lines.drop_first());
        let whole = drawn(seed, width, tiles, lines);
        let rest = drawn(seed, width, next, lines.drop_first());
        assert(whole.0 == seq![taken] + rest.0);
        assert forall|i: int| 0 <= i < lines.len() implies 0 <= #[trigger] whole.0[i] && (lines[i].1 >= 0 ==> whole.0[i]
            <= lines[i].1) by {
            if i > 0 {
                assert(whole.0[i] == rest.0[i - 1]);
                assert(lines.drop_first()[i - 1] == lines[i]);
            }
        }
    }
}

/// Lines that take what `takes` says, each no more than its plan line, add up as the takes
/// do, between nothing and what the plan adds up to.
proof fn lemma_taken_prefix(got: Seq<MaterialLineage>, plan: Seq<MaterialLineage>, takes: Seq<int>, k: int)
    requires
        0 <= k <= got.len(),
        got.len() == plan.len(),
        takes.len() == got.len(),
        forall|j: int|
            0 <= j < got.len() ==> #[trigger] got[j].grams == takes[j] && 0 <= takes[j] <= plan[j].grams,
    ensures
        lineage_sum(got.take(k)) == taken_total(takes.take(k)),
        0 <= lineage_sum(got.take(k)) <= lineage_sum(plan.take(k)),
    decreases k,
{
    if k > 0 {
        lemma_taken_prefix(got, plan, takes, k - 1);
        assert(got.take(k).drop_last() =~= got.take(k - 1));
        assert(plan.take(k).drop_last() =~= plan.take(k - 1));
        assert(takes.take(k).drop_last() =~= takes.take(k - 1));
        assert(got[k - 1].grams == takes[k - 1]);
    } else {
        assert(got.take(0) =~= Seq::<MaterialLineage>::empty());
        assert(plan.take(0) =~= Seq::<MaterialLineage>::empty());
        assert(takes.take(0) =~= Seq::<int>::empty());
    }
}

/// Everybody who had taken the task numbered `id` is freed of it and sent home.
fn release(cs: &mut Vec<Citizen>, id: u32)
    ensures
        final(cs)@.len() == old(cs)@.len(),
        forall|i: int| 0 <= i < old(cs)@.len() ==> released(#[trigger] final(cs)@[i], old(cs)@[i], id),
{
    let ghost before = cs@;
    let mut i: usize = 0;
    while i < cs.len()
        invariant
            cs@.len() == before.len(),
            i <= before.len(),
            forall|q: int| 0 <= q < i ==> released(#[trigger] cs@[q], before[q], id),
            forall|q: int| i <= q < before.len() ==> #[trigger] cs@[q] == before[q],
        decreases before.len() - i,
    {
        let mine = match cs[i].task {
            Some(t) => t == id,
            None => false,
        };
        if mine {
            cs[i].task = None;
            cs[i].state = CitizenState::ToHome;
        }
        i += 1;
    }
}

/// The grams a run of lineage lines accounts for.
fn lines_total(lines: &Vec<MaterialLineage>) -> (r: i64)
    requires
        lineage_fits(lines@),
    ensures
        r == lineage_sum(lines@),
{
    let mut total: i64 = 0;
    let mut i: usize = 0;
    while i < lines.len()
        invariant
            i <= lines@.len(),
            lineage_fits(lines@),
            total == lineage_sum(lines@.take(i as int)),
        decreases lines@.len() - i,
    {
        proof {
            assert(lines@.take(i as int + 1).drop_last() =~= lines@.take(i as int));
            assert(fits_i64(lineage_sum(lines@.take(i as int + 1))));
        }
        total = total + lines[i].grams;
        i += 1;
    }
    proof {
        assert(lines@.take(lines@.len() as int) =~= lines@);
    }
    total
}

impl City {
    /// Bring the task numbered `id` to an end (see [`completed`]): draw its plan, raise
    /// its structure if the draw covers it and the site still takes it, and otherwise give
    /// the shortfall.
    #[verifier::spinoff_prover]
    fn finish(&mut self, id: u32) -> (r: Option<MaterialShortfall>)
        requires
            old(self).ground.width > 0,
            old(self).ground.all_fit(),
            tasks_sound(*old(self)),
            old(self).counts_fit(),
            old(self).next_building_id < u32::MAX,
            old(self).buildings@.len() < u32::MAX,
            old(self).clock.tick + BUILD_TICKS <= u64::MAX,
            jobs_in(old(self).buildings@) + 12 <= u32::MAX,
        ensures
            completed(*old(self), *final(self), id, r),
            final(self).ground.all_fit(),
            tasks_sound(*final(self)),
            final(self).counts_fit(),
            final(self).ground.tiles@.len() == old(self).ground.tiles@.len(),
            final(self).tasks@.len() <= old(self).tasks@.len(),
            jobs_in(final(self).buildings@) <= jobs_in(old(self).buildings@) + 12,
            final(self).next_building_id <= old(self).next_building_id + 1,
            final(self).buildings@.len() <= old(self).buildings@.len() + 1,
    {
        let ghost want = id_is(id);
        let mut pos: usize = 0;
        while pos < self.tasks.len() && self.tasks[pos].id != id
            invariant
                want == id_is(id),
                pos <= self.tasks@.len(),
                first_upto(self.tasks@, want, pos as int) == -1,
            decreases self.tasks@.len() - pos,
        {
            proof {
                assert(!want(self.tasks@[pos as int]));
            }
            pos += 1;
        }
        if pos == self.tasks.len() {
            return None;
        }
        proof {
            assert(want(self.tasks@[pos as int]));
            assert(first_upto(self.tasks@, want, pos as int + 1) == pos);
            first_stays(self.tasks@, want, pos as int + 1);
            assert(task_drawable(self.tasks@[pos as int], self.ground.tiles@.len()));
        }
        let ghost start = *self;
        let task = self.tasks.remove(pos);
        proof {
            assert forall|i: int| 0 <= i < self.tasks@.len() implies #[trigger] task_drawable(
                self.tasks@[i],
                self.ground.tiles@.len(),
            ) by {
                if i < pos {
                    assert(self.tasks@[i] == start.tasks@[i]);
                } else {
                    assert(self.tasks@[i] == start.tasks@[i + 1]);
                }
            }
            assert forall|i: int| 0 <= i < task.material@.len() implies #[trigger] task.material@[i].tile
                < self.ground.tiles@.len() && self.ground.remains_fit(task.material@[i].tile) by {
                assert(task.material@[i].tile < self.ground.tiles@.len());
            }
        }
        let ghost lines = draws_of(lines_of(task.material@));
        let ghost d = drawn(self.ground.seed, self.ground.width, self.ground.tiles@, lines);
        let drawn_lines = self.ground.draw_material(&task.material);
        proof {
            lemma_drawn_bounded(start.ground.seed, start.ground.width, start.ground.tiles@, lines);
            assert forall|j: int| 0 <= j < drawn_lines@.len() implies #[trigger] drawn_lines@[j].grams == d.0[j] && 0
                <= d.0[j] <= task.material@[j].grams by {
                assert(drawn_lines@[j].tile == task.material@[j].tile);
                assert(lines[j].1 == task.material@[j].grams);
            }
            lemma_taken_prefix(drawn_lines@, task.material@, d.0, drawn_lines@.len() as int);
            assert forall|k: int| 0 <= k <= drawn_lines@.len() implies #[trigger] fits_i64(
                lineage_sum(drawn_lines@.take(k)),
            ) by {
                lemma_taken_prefix(drawn_lines@, task.material@, d.0, k);
                assert(fits_i64(lineage_sum(task.material@.take(k))));
            }
            assert(drawn_lines@.take(drawn_lines@.len() as int) =~= drawn_lines@);
            assert(d.0.take(d.0.len() as int) =~= d.0);
        }
        let got = lines_total(&drawn_lines);
        let ghost drawn_ground = self.ground;
        let built = if got >= task.requires_g {
            self.place_building(task.site, task.kind)
        } else {
            None
        };
        let ghost placed = *self;
        let refusal = match built {
            Some(_) => {
                let index = self.buildings.len() - 1;
                self.buildings[index].material_from = drawn_lines;
                proof {
                    assert(self.buildings@ =~= placed.buildings@.update(index as int, self.buildings@[index as int]));
                    lemma_recount_update(
                        self.ground.tiles@,
                        placed.buildings@,
                        start.citizens@,
                        start.stats.brownout,
                        start.stats.commute_failures,
                        index as int,
                        self.buildings@[index as int],
                    );
                    assert(self.buildings@.take(index as int) =~= placed.buildings@.take(index as int));
                    assert forall|k: int| 0 <= k <= self.buildings@.len() implies #[trigger] jobs_in(
                        self.buildings@.take(k),
                    ) <= u32::MAX by {
                        assert(jobs_fit(placed.buildings@));
                        assert(jobs_in(placed.buildings@.take(k)) <= u32::MAX);
                        if k > index {
                            assert(self.buildings@.take(k) =~= placed.buildings@.take(k).update(
                                index as int,
                                self.buildings@[index as int],
                            ));
                            lemma_jobs_update(placed.buildings@.take(k), index as int, self.buildings@[index as int]);
                        } else {
                            assert(self.buildings@.take(k) =~= placed.buildings@.take(k));
                        }
                    }
                    lemma_jobs_update(placed.buildings@, index as int, self.buildings@[index as int]);
                }
                None
            },
            None => Some(
                MaterialShortfall { site: task.site, family: task.family, wanted_g: task.requires_g, found_g: got },
            ),
        };
        let ghost cs = self.citizens@;
        release(&mut self.citizens, id);
        proof {
            assert forall|t: u32| t < self.ground.tiles@.len() implies #[trigger] self.ground.remains_fit(t) by {
                assert(drawn_ground.remains_fit(t));
                assert(self.ground.tiles@[t as int].extracted_g == drawn_ground.tiles@[t as int].extracted_g);
            }
            assert forall|i: int| 0 <= i < self.tasks@.len() implies #[trigger] task_drawable(
                self.tasks@[i],
                self.ground.tiles@.len(),
            ) by {
                assert(task_drawable(self.tasks@[i], start.ground.tiles@.len()));
            }
            lemma_jobs_nonnegative(start.buildings@);
            if built is Some {
                assert(self.buildings@.drop_last() =~= start.buildings@);
            }
        }
        refusal
    }
}

impl City {
    /// One tick of labour on every claimed task, then every task it finishes brought to an
    /// end in the order the tasks stand: drawn out of the ground and raised, or refused.
    /// Gives the refusals, in order, each with the mass it wanted and the mass it found.
    pub fn work_tasks(&mut self) -> (r: Vec<MaterialShortfall>)
        requires
            old(self).ground.width > 0,
            old(self).ground.all_fit(),
            tasks_sound(*old(self)),
            forall|i: int| 0 <= i < old(self).tasks@.len() ==> #[trigger] old(self).tasks@[i].work_remaining > i64::MIN,
            old(self).counts_fit(),
            old(self).next_building_id + old(self).tasks@.len() < u32::MAX,
            old(self).buildings@.len() + old(self).tasks@.len() < u32::MAX,
            old(self).clock.tick + BUILD_TICKS <= u64::MAX,
            jobs_in(old(self).buildings@) + 12 * old(self).tasks@.len() <= u32::MAX,
        ensures
            exists|w: City, steps: Seq<City>, outs: Seq<Option<MaterialShortfall>>|
                #[trigger] worked_through(*old(self), w, steps, outs, *final(self)) && r@ == refusals(outs),
    {
        let ghost start = *self;
        let ids = self.labour();
        let ghost w = *self;
        proof {
            lemma_finished_len(start.ground.width, start.citizens@, start.tasks@, start.tasks@.len() as int);
            assert forall|i: int| 0 <= i < self.tasks@.len() implies #[trigger] task_drawable(
                self.tasks@[i],
                self.ground.tiles@.len(),
            ) by {
                assert(task_drawable(start.tasks@[i], start.ground.tiles@.len()));
                assert(self.tasks@[i] == worked(start.ground.width, start.citizens@, start.tasks@[i]).0);
            }
        }
        let ghost mut steps: Seq<City> = seq![w];
        let ghost mut outs: Seq<Option<MaterialShortfall>> = Seq::empty();
        let mut out: Vec<MaterialShortfall> = Vec::new();
        let mut k: usize = 0;
        while k < ids.len()
            invariant
                ids@ == finished_ids(start.ground.width, start.citizens@, start.tasks@, start.tasks@.len() as int),
                k <= ids@.len(),
                steps.len() == k + 1,
                outs.len() == k,
                steps[0] == w,
                steps[k as int] == *self,
                forall|j: int| 0 <= j < k ==> completed(steps[j], steps[j + 1], ids@[j], #[trigger] outs[j]),
                out@ == refusals(outs),
                self.ground.width == start.ground.width,
                self.ground.width > 0,
                self.ground.all_fit(),
                tasks_sound(*self),
                self.counts_fit(),
                self.clock == start.clock,
                self.next_building_id + (ids@.len() - k) < u32::MAX,
                self.buildings@.len() + (ids@.len() - k) < u32::MAX,
                self.clock.tick + BUILD_TICKS <= u64::MAX,
                jobs_in(self.buildings@) + 12 * (ids@.len() - k) <= u32::MAX,
            decreases ids@.len() - k,
        {
            let id = ids[k];
            let ghost before = *self;
            let ghost prev = outs;
            let refusal = self.finish(id);
            proof {
                steps = steps.push(*self);
                outs = outs.push(refusal);
                assert(outs.drop_last() =~= prev);
                assert forall|j: int| 0 <= j < k + 1 implies completed(
                    steps[j],
                    steps[j + 1],
                    ids@[j],
                    #[trigger] outs[j],
                ) by {
                    if j == k {
                        assert(steps[j] == before);
                    }
                }
            }
            match refusal {
                Some(s) => {
                    out.push(s);
                },
                None => {},
            }
            k += 1;
        }
        proof {
            assert(worked_through(start, w, steps, outs, *self));
        }
        out
    }
}

} // verus!
