//! The mass ledger: where the world's mass is, in exact grams, by account.
//!
//! **Mass is never created, so every movement has two sides.** Extracting from a tile
//! debits `ground:<substance>` and credits a stock; every later movement has two sides
//! too, so a world where every movement went through [`Ledger::convert`] shows a **total
//! of exactly zero**. A nonzero total means some movement had one side, and that is the
//! whole audit. There is no float anywhere in this file.
use vstd::prelude::*;

use crate::exact::fits_i64;
use crate::lookup::{first_of, first_upto, lemma_first_upto};
use crate::materials::schema::first_stays;
use crate::strings::{
    before, begins_with, decimal, decimal_nat, lemma_number_then_colon, lemma_text_order, same, show_i64, show_u32, show_usize,
    text_lt, views,
};

verus! {

/// How many structure kinds declare a mass.
pub const STRUCTURE_MASS_G_LEN: usize = 4;

/// A structure's mass at level 1, in grams, by the kind's declared name.
///
/// The economy's arithmetic is built on *"a house is ~100 t of material"*; the rest are
/// declared game numbers scaled from it, and marked as declared rather than sourced.
pub open spec fn spec_structure_mass_row(i: int) -> (&'static str, i64) {
    if i == 0 {
        ("home", 100_000_000)
    } else if i == 1 {
        ("shop", 150_000_000)
    } else if i == 2 {
        ("factory", 400_000_000)
    } else {
        ("power plant", 1_200_000_000)
    }
}

/// One row of the structure mass table.
pub fn structure_mass_row(i: usize) -> (r: (&'static str, i64))
    requires
        i < STRUCTURE_MASS_G_LEN,
    ensures
        r == spec_structure_mass_row(i as int),
{
    match i {
        0 => ("home", 100_000_000),
        1 => ("shop", 150_000_000),
        2 => ("factory", 400_000_000),
        _ => ("power plant", 1_200_000_000),
    }
}

/// The declared base mass of a kind, if the table declares it.
pub open spec fn spec_structure_base(kind: Seq<char>) -> Option<i64> {
    if kind == spec_structure_mass_row(0).0@ {
        Some(spec_structure_mass_row(0).1)
    } else if kind == spec_structure_mass_row(1).0@ {
        Some(spec_structure_mass_row(1).1)
    } else if kind == spec_structure_mass_row(2).0@ {
        Some(spec_structure_mass_row(2).1)
    } else if kind == spec_structure_mass_row(3).0@ {
        Some(spec_structure_mass_row(3).1)
    } else {
        None
    }
}

/// The mass of a structure of `kind` at `level`, in grams, or `None` for a kind this table
/// does not declare. Level scales mass linearly and exactly; level 0 weighs what level 1
/// does, so no building enters the ledger as nothing.
pub fn structure_mass_g(kind: &str, level: u8) -> (r: Option<i64>)
    ensures
        r == (match spec_structure_base(kind@) {
            Some(base) => Some((base * (if level == 0 { 1 } else { level as int })) as i64),
            None => None::<i64>,
        }),
        r matches Some(m) ==> m == spec_structure_base(kind@)->Some_0 * (if level == 0 {
            1
        } else {
            level as int
        }),
{
    let mut i: usize = 0;
    while i < STRUCTURE_MASS_G_LEN
        invariant
            i <= STRUCTURE_MASS_G_LEN,
            forall|j: int| 0 <= j < i ==> spec_structure_mass_row(j).0@ != kind@,
        decreases STRUCTURE_MASS_G_LEN - i,
    {
        let (name, base) = structure_mass_row(i);
        if same(name, kind) {
            let scale: i64 = if level == 0 { 1 } else { level as i64 };
            return Some(base * scale);
        }
        i += 1;
    }
    None
}

/// The account holding mass the world has taken **out of** its ground.
pub fn ground_account(substance: &str) -> (r: String)
    ensures
        r@ == "ground:"@ + substance@,
{
    let mut r = String::from_str("ground:");
    r.append(substance);
    r
}

/// The account holding mass standing **in** the city as a structure.
pub fn structure_account(family: &str) -> (r: String)
    ensures
        r@ == "structure:"@ + family@,
{
    let mut r = String::from_str("structure:");
    r.append(family);
    r
}

/// The account holding a retired structure's remains: a demolition moves mass here
/// instead of destroying it.
pub fn ruin_account(family: &str) -> (r: String)
    ensures
        r@ == "ruin:"@ + family@,
{
    let mut r = String::from_str("ruin:");
    r.append(family);
    r
}

/// The prefix every holding at a site shares, as text.
pub open spec fn site_prefix_text(tile: u32) -> Seq<char> {
    "site:"@ + decimal_nat(tile as nat) + ":"@
}

/// The account of loose mass at a site, as text.
pub open spec fn site_account_text(tile: u32, substance: Seq<char>) -> Seq<char> {
    site_prefix_text(tile) + substance
}

/// The prefix every holding in a carrier shares, as text.
pub open spec fn carried_prefix_text(carrier: u32) -> Seq<char> {
    "carried:carrier-"@ + decimal_nat(carrier as nat) + ":"@
}

/// The account of mass in a carrier, as text.
pub open spec fn carried_account_text(carrier: u32, substance: Seq<char>) -> Seq<char> {
    carried_prefix_text(carrier) + substance
}

/// A text that begins with a head and then one tail begins with the head and another tail
/// only when the first tail begins with the second.
proof fn lemma_strip_head(head: Seq<char>, a: Seq<char>, b: Seq<char>)
    requires
        begins_with(head + a, head + b),
    ensures
        begins_with(a, b),
{
    let long = head + a;
    let short = head + b;
    assert forall|i: int| 0 <= i < b.len() implies a[i] == b[i] by {
        assert(long.subrange(0, short.len() as int)[head.len() + i] == short[head.len() + i]);
    }
    assert(a.subrange(0, b.len() as int) =~= b);
}

/// A tile's prefix names that tile alone: one site's prefix begins another's only when
/// they are the same site, and a site account begins with a site's prefix only when it is
/// that site's — so "site 4" never reads as the start of "site 41". The same holds of
/// carriers.
pub proof fn law_a_prefix_names_one_holder(a: u32, b: u32, t: u32, substance: Seq<char>)
    ensures
        begins_with(site_prefix_text(b), site_prefix_text(a)) <==> a == b,
        begins_with(site_account_text(t, substance), site_prefix_text(a)) <==> t == a,
        begins_with(carried_prefix_text(b), carried_prefix_text(a)) <==> a == b,
        begins_with(carried_account_text(t, substance), carried_prefix_text(a)) <==> t == a,
{
    let site = "site:"@;
    let carried = "carried:carrier-"@;
    let da = decimal_nat(a as nat) + ":"@;
    let db = decimal_nat(b as nat) + ":"@;
    let dt = decimal_nat(t as nat) + ":"@;
    assert(site_prefix_text(a) =~= site + da);
    assert(site_prefix_text(b) =~= site + db);
    assert(site_account_text(t, substance) =~= site + (dt + substance));
    assert(carried_prefix_text(a) =~= carried + da);
    assert(carried_prefix_text(b) =~= carried + db);
    assert(carried_account_text(t, substance) =~= carried + (dt + substance));
    if begins_with(site_prefix_text(b), site_prefix_text(a)) {
        lemma_strip_head(site, db, da);
        assert(db =~= decimal_nat(b as nat) + ":"@ + Seq::<char>::empty());
        lemma_number_then_colon(a as nat, b as nat, Seq::empty());
    }
    if begins_with(carried_prefix_text(b), carried_prefix_text(a)) {
        lemma_strip_head(carried, db, da);
        assert(db =~= decimal_nat(b as nat) + ":"@ + Seq::<char>::empty());
        lemma_number_then_colon(a as nat, b as nat, Seq::empty());
    }
    if begins_with(site_account_text(t, substance), site_prefix_text(a)) {
        lemma_strip_head(site, dt + substance, da);
        assert(dt + substance =~= decimal_nat(t as nat) + ":"@ + substance);
        lemma_number_then_colon(a as nat, t as nat, substance);
    }
    if begins_with(carried_account_text(t, substance), carried_prefix_text(a)) {
        lemma_strip_head(carried, dt + substance, da);
        assert(dt + substance =~= decimal_nat(t as nat) + ":"@ + substance);
        lemma_number_then_colon(a as nat, t as nat, substance);
    }
    if a == b {
        assert(site_prefix_text(b).subrange(0, site_prefix_text(a).len() as int) =~= site_prefix_text(a));
        assert(carried_prefix_text(b).subrange(0, carried_prefix_text(a).len() as int) =~= carried_prefix_text(a));
    }
    if t == a {
        assert(site_account_text(t, substance).subrange(0, site_prefix_text(a).len() as int) =~= site_prefix_text(a));
        assert(carried_account_text(t, substance).subrange(0, carried_prefix_text(a).len() as int)
            =~= carried_prefix_text(a));
    }
}

/// Every holding has an account of its own: two site accounts are one only for the same
/// tile and substance, and no site account is a carrier's.
pub proof fn law_accounts_name_their_holding(t: u32, s: Seq<char>, t2: u32, s2: Seq<char>, c: u32, s3: Seq<char>)
    ensures
        site_account_text(t, s) == site_account_text(t2, s2) ==> t == t2 && s == s2,
        site_account_text(t, s) != carried_account_text(c, s3),
{
    reveal_strlit("site:");
    reveal_strlit("carried:carrier-");
    if site_account_text(t, s) == site_account_text(t2, s2) {
        law_a_prefix_names_one_holder(t2, t2, t, s);
        law_a_prefix_names_one_holder(t2, t2, t2, s2);
        let p = site_prefix_text(t2);
        assert(site_account_text(t2, s2).subrange(0, p.len() as int) =~= p);
        assert(begins_with(site_account_text(t, s), p));
        assert(t == t2);
        assert(s =~= site_account_text(t, s).subrange(p.len() as int, site_account_text(t, s).len() as int));
        assert(s2 =~= site_account_text(t2, s2).subrange(p.len() as int, site_account_text(t2, s2).len() as int));
    }
    assert(site_account_text(t, s)[0] == 's');
    assert(carried_account_text(c, s3)[0] == 'c');
}

/// The account holding loose mass **at a site**, by tile and substance.
pub fn site_account(tile: u32, substance: &str) -> (r: String)
    ensures
        r@ == site_account_text(tile, substance@),
{
    let mut r = String::from_str("site:");
    let number = show_u32(tile);
    r.append(number.as_str());
    r.append(":");
    r.append(substance);
    r
}

/// The account holding mass **in a carrier**: a person's arms, or a vehicle's bed.
pub fn carried_account(carrier: u32, substance: &str) -> (r: String)
    ensures
        r@ == carried_account_text(carrier, substance@),
{
    let mut r = String::from_str("carried:carrier-");
    let number = show_u32(carrier);
    r.append(number.as_str());
    r.append(":");
    r.append(substance);
    r
}

/// The prefix every holding at a site shares.
pub fn site_prefix(tile: u32) -> (r: String)
    ensures
        r@ == site_prefix_text(tile),
{
    let mut r = String::from_str("site:");
    let number = show_u32(tile);
    r.append(number.as_str());
    r.append(":");
    r
}

/// The prefix every holding in a carrier shares.
pub fn carried_prefix(carrier: u32) -> (r: String)
    ensures
        r@ == carried_prefix_text(carrier),
{
    let mut r = String::from_str("carried:carrier-");
    let number = show_u32(carrier);
    r.append(number.as_str());
    r.append(":");
    r
}

/// A ledger listing: each account and its grams.
pub open spec fn listing(entries: Seq<(String, i64)>) -> Seq<(Seq<char>, i64)> {
    entries.map_values(|entry: (String, i64)| (entry.0@, entry.1))
}

/// Whether a listing is in strictly increasing account order, so no account appears twice.
pub open spec fn sorted_listing(es: Seq<(Seq<char>, i64)>) -> bool {
    forall|i: int, j: int| 0 <= i < j < es.len() ==> text_lt(#[trigger] es[i].0, #[trigger] es[j].0)
}

/// Whether an entry's account does not come before `account`.
pub open spec fn not_before(account: Seq<char>) -> spec_fn((Seq<char>, i64)) -> bool {
    |entry: (Seq<char>, i64)| !text_lt(entry.0, account)
}

/// Where `account` sits in a sorted listing: the first entry that does not come before it.
pub open spec fn position(es: Seq<(Seq<char>, i64)>, account: Seq<char>) -> int {
    let k = first_of(es, not_before(account));
    if k < 0 {
        es.len() as int
    } else {
        k
    }
}

/// What a listing says about one account, in grams.
pub open spec fn spec_of(es: Seq<(Seq<char>, i64)>, account: Seq<char>) -> int {
    let k = position(es, account);
    if k < es.len() && es[k].0 == account {
        es[k].1 as int
    } else {
        0
    }
}

/// A listing after one side of a movement: the account's grams change by `grams`, and an
/// account not yet listed is added at its place in the order.
pub open spec fn spec_record(es: Seq<(Seq<char>, i64)>, account: Seq<char>, grams: int) -> Seq<
    (Seq<char>, i64),
> {
    let k = position(es, account);
    if k < es.len() && es[k].0 == account {
        es.update(k, (account, (es[k].1 + grams) as i64))
    } else {
        es.insert(k, (account, grams as i64))
    }
}

/// The grams of the first `n` entries of a listing.
pub open spec fn listing_sum(es: Seq<(Seq<char>, i64)>, n: int) -> int
    decreases n,
{
    if n <= 0 {
        0
    } else {
        listing_sum(es, n - 1) + es[n - 1].1
    }
}

/// Whether every running total of a listing fits in 64 bits.
pub open spec fn sums_fit(es: Seq<(Seq<char>, i64)>) -> bool {
    forall|n: int| 0 <= n <= es.len() ==> fits_i64(#[trigger] listing_sum(es, n))
}

/// The world's balance over a listing: zero means every movement had two sides.
pub open spec fn spec_total(es: Seq<(Seq<char>, i64)>) -> int {
    listing_sum(es, es.len() as int)
}

/// The entries of the first `n` listed that hold a nonzero amount.
pub open spec fn nonzero_upto(es: Seq<(Seq<char>, i64)>, n: int) -> Seq<(Seq<char>, i64)>
    decreases n,
{
    if n <= 0 {
        Seq::empty()
    } else if es[n - 1].1 != 0 {
        nonzero_upto(es, n - 1).push(es[n - 1])
    } else {
        nonzero_upto(es, n - 1)
    }
}

/// Where the mass currently is: every account holding a nonzero amount, in order.
pub open spec fn spec_holdings(es: Seq<(Seq<char>, i64)>) -> Seq<(Seq<char>, i64)> {
    nonzero_upto(es, es.len() as int)
}

/// The one finding an unbalanced ledger reports.
pub open spec fn imbalance_text(total: int, accounts: nat) -> Seq<char> {
    "the world's mass does not balance: "@ + decimal(total) + " g unaccounted for across "@
        + decimal_nat(accounts)
        + " account(s) — some movement had only one side, which is the one thing that cannot happen"@
}

/// The defect a transfer reports when its two sides disagree.
pub open spec fn unconserved_text(from: Seq<char>, to: Seq<char>, grams_in: int, grams_out: int) -> Seq<char> {
    "`"@ + from + "` → `"@ + to + "` does not conserve: "@ + decimal(grams_in) + " g in, "@
        + decimal(grams_out) + " g out, a difference of "@ + decimal(grams_in - grams_out) + " g"@
}

/// A borrowed listing, as the same listing.
pub open spec fn borrowed_listing(rows: Seq<(&str, i64)>) -> Seq<(Seq<char>, i64)> {
    rows.map_values(|row: (&str, i64)| (row.0@, row.1))
}

/// Whether some entry of a listing is for `account`.
pub open spec fn lists(es: Seq<(Seq<char>, i64)>, account: Seq<char>) -> bool {
    exists|i: int| 0 <= i < es.len() && (#[trigger] es[i]).0 == account
}

/// In a sorted listing, an account's reading is the grams of the one entry for it, or zero.
pub proof fn lemma_of_sorted(es: Seq<(Seq<char>, i64)>, account: Seq<char>)
    requires
        sorted_listing(es),
    ensures
        forall|i: int| 0 <= i < es.len() && (#[trigger] es[i]).0 == account ==> spec_of(es, account) == es[i].1,
        !lists(es, account) ==> spec_of(es, account) == 0,
{
    lemma_first_upto(es, not_before(account), es.len() as int);
    let k = position(es, account);
    assert forall|i: int| 0 <= i < es.len() && (#[trigger] es[i]).0 == account implies spec_of(es, account) == es[i].1 by {
        lemma_text_order(account, account, account);
        assert(not_before(account)(es[i]));
        if k < i {
            assert(text_lt(es[k].0, es[i].0));
            assert(!text_lt(es[k].0, account));
            lemma_text_order(es[k].0, account, account);
            lemma_text_order(account, es[k].0, account);
        }
    }
    if !lists(es, account) {
        if k < es.len() && es[k].0 == account {
            assert(lists(es, account));
        }
    }
}

/// One side of a movement keeps a listing sorted.
pub proof fn lemma_record_sorted(es: Seq<(Seq<char>, i64)>, account: Seq<char>, grams: int)
    requires
        sorted_listing(es),
    ensures
        sorted_listing(spec_record(es, account, grams)),
{
    lemma_first_upto(es, not_before(account), es.len() as int);
    let k = position(es, account);
    assert forall|j: int| 0 <= j < k implies text_lt(#[trigger] es[j].0, account) by {
        assert(!not_before(account)(es[j]));
    }
    let new_es = spec_record(es, account, grams);
    if k < es.len() && es[k].0 == account {
        assert forall|a: int, b: int| 0 <= a < b < new_es.len() implies text_lt(
            #[trigger] new_es[a].0,
            #[trigger] new_es[b].0,
        ) by {
            assert(text_lt(es[a].0, es[b].0));
        }
    } else {
        if k < es.len() {
            assert(not_before(account)(es[k]));
            lemma_text_order(es[k].0, account, account);
        }
        assert forall|a: int, b: int| 0 <= a < b < new_es.len() implies text_lt(
            #[trigger] new_es[a].0,
            #[trigger] new_es[b].0,
        ) by {
            if b < k {
                assert(text_lt(es[a].0, es[b].0));
            } else if a < k && b == k {
            } else if a < k && b > k {
                if b - 1 > k {
                    lemma_text_order(account, es[k].0, es[b - 1].0);
                }
                lemma_text_order(es[a].0, account, es[b - 1].0);
            } else if a == k {
                if b - 1 > k {
                    lemma_text_order(account, es[k].0, es[b - 1].0);
                }
            } else {
                assert(text_lt(es[a - 1].0, es[b - 1].0));
            }
        }
    }
}

/// Changing one entry by `grams` changes every running total past it by `grams`.
proof fn lemma_sum_update(es: Seq<(Seq<char>, i64)>, k: int, entry: (Seq<char>, i64), n: int)
    requires
        0 <= k < es.len(),
        0 <= n <= es.len(),
    ensures
        listing_sum(es.update(k, entry), n) == listing_sum(es, n) + (if n > k {
            entry.1 - es[k].1
        } else {
            0
        }),
    decreases n,
{
    if n > 0 {
        lemma_sum_update(es, k, entry, n - 1);
    }
}

/// Inserting an entry leaves every running total before it alone.
proof fn lemma_sum_insert_before(es: Seq<(Seq<char>, i64)>, k: int, entry: (Seq<char>, i64), n: int)
    requires
        0 <= k <= es.len(),
        0 <= n <= k,
    ensures
        listing_sum(es.insert(k, entry), n) == listing_sum(es, n),
    decreases n,
{
    if n > 0 {
        lemma_sum_insert_before(es, k, entry, n - 1);
    }
}

/// Inserting an entry adds its grams to every running total past it.
proof fn lemma_sum_insert(es: Seq<(Seq<char>, i64)>, k: int, entry: (Seq<char>, i64), n: int)
    requires
        0 <= k <= n <= es.len(),
    ensures
        listing_sum(es.insert(k, entry), n + 1) == listing_sum(es, n) + entry.1,
    decreases n,
{
    if n == k {
        lemma_sum_insert_before(es, k, entry, k);
    } else {
        lemma_sum_insert(es, k, entry, n - 1);
    }
}

/// One side of a movement changes the world's balance by exactly what it moved.
pub proof fn lemma_record_total(es: Seq<(Seq<char>, i64)>, account: Seq<char>, grams: int)
    requires
        fits_i64(spec_of(es, account) + grams),
        fits_i64(grams),
    ensures
        spec_total(spec_record(es, account, grams)) == spec_total(es) + grams,
{
    let k = position(es, account);
    lemma_first_upto(es, not_before(account), es.len() as int);
    if k < es.len() && es[k].0 == account {
        lemma_sum_update(es, k, (account, (es[k].1 + grams) as i64), es.len() as int);
    } else {
        lemma_sum_insert(es, k, (account, grams as i64), es.len() as int);
    }
}

/// One side of a movement reads back on its own account, and on no other.
pub proof fn lemma_record_reads_back(es: Seq<(Seq<char>, i64)>, account: Seq<char>, grams: int, other: Seq<char>)
    requires
        sorted_listing(es),
        fits_i64(spec_of(es, account) + grams),
    ensures
        spec_of(spec_record(es, account, grams), account) == spec_of(es, account) + grams,
        other != account ==> spec_of(spec_record(es, account, grams), other) == spec_of(es, other),
{
    let new_es = spec_record(es, account, grams);
    lemma_first_upto(es, not_before(account), es.len() as int);
    lemma_record_sorted(es, account, grams);
    lemma_of_sorted(es, account);
    lemma_of_sorted(es, other);
    lemma_of_sorted(new_es, account);
    lemma_of_sorted(new_es, other);
    let k = position(es, account);
    if k < es.len() && es[k].0 == account {
        assert(new_es[k].0 == account);
        if other != account {
            if lists(es, other) {
                let i = choose|i: int| 0 <= i < es.len() && (#[trigger] es[i]).0 == other;
                assert(new_es[i] == es[i]);
            } else if lists(new_es, other) {
                let i = choose|i: int| 0 <= i < new_es.len() && (#[trigger] new_es[i]).0 == other;
                assert(es[i].0 == other);
            }
        }
    } else {
        assert(new_es[k].0 == account);
        if lists(es, account) {
            let i = choose|i: int| 0 <= i < es.len() && (#[trigger] es[i]).0 == account;
            assert(spec_of(es, account) == es[i].1);
            lemma_first_upto(es, not_before(account), es.len() as int);
            lemma_text_order(account, account, account);
            assert(not_before(account)(es[i]));
            if i < k {
            } else if k < i {
                assert(text_lt(es[k].0, es[i].0));
                lemma_text_order(es[k].0, account, account);
                lemma_text_order(account, es[k].0, account);
                assert(not_before(account)(es[k]));
            }
        }
        if other != account {
            if lists(es, other) {
                let i = choose|i: int| 0 <= i < es.len() && (#[trigger] es[i]).0 == other;
                if i < k {
                    assert(new_es[i] == es[i]);
                } else {
                    assert(new_es[i + 1] == es[i]);
                }
            } else if lists(new_es, other) {
                let i = choose|i: int| 0 <= i < new_es.len() && (#[trigger] new_es[i]).0 == other;
                if i < k {
                    assert(es[i].0 == other);
                } else if i > k {
                    assert(es[i - 1].0 == other);
                }
            }
        }
    }
}

/// Where `account` sits in the listing: the first entry that does not come before it.
fn position_in(entries: &Vec<(String, i64)>, account: &str) -> (r: usize)
    ensures
        r == position(listing(entries@), account@),
        r <= entries@.len(),
{
    let ghost es = listing(entries@);
    let mut i: usize = 0;
    while i < entries.len()
        invariant
            i <= entries@.len(),
            es == listing(entries@),
            first_upto(es, not_before(account@), i as int) == -1,
        decreases entries@.len() - i,
    {
        assert(es[i as int].0 == entries@[i as int].0@);
        if !before(entries[i].0.as_str(), account) {
            proof {
                first_stays(es, not_before(account@), i as int + 1);
            }
            return i;
        }
        i += 1;
    }
    i
}

/// A listing after a transfer of `grams_in` from one account that arrives as `grams_out` at
/// another: both sides recorded when they agree, and nothing changed when they do not.
pub open spec fn moved(es: Seq<(Seq<char>, i64)>, from: Seq<char>, grams_in: int, to: Seq<char>, grams_out: int) -> Seq<
    (Seq<char>, i64),
> {
    if grams_in != grams_out {
        es
    } else {
        spec_record(spec_record(es, from, -grams_in), to, grams_out)
    }
}

/// Whether a transfer's amounts can be counted in 64 bits against a listing.
pub open spec fn move_fits(es: Seq<(Seq<char>, i64)>, from: Seq<char>, grams_in: int, to: Seq<char>, grams_out: int) -> bool {
    &&& fits_i64(grams_in)
    &&& fits_i64(grams_out)
    &&& grams_in != grams_out ==> fits_i64(grams_in - grams_out)
    &&& grams_in == grams_out ==> grams_in > i64::MIN && fits_i64(spec_of(es, from) - grams_in) && fits_i64(
        spec_of(spec_record(es, from, -grams_in), to) + grams_out,
    )
}

/// A listing after a sequence of transfers, each `(from, grams in, to, grams out)`.
pub open spec fn after_moves(es: Seq<(Seq<char>, i64)>, moves: Seq<(Seq<char>, i64, Seq<char>, i64)>) -> Seq<
    (Seq<char>, i64),
>
    decreases moves.len(),
{
    if moves.len() == 0 {
        es
    } else {
        let m = moves.last();
        moved(after_moves(es, moves.drop_last()), m.0, m.1 as int, m.2, m.3 as int)
    }
}

/// Whether every transfer of a sequence can be counted in 64 bits where it happens.
pub open spec fn moves_fit(es: Seq<(Seq<char>, i64)>, moves: Seq<(Seq<char>, i64, Seq<char>, i64)>) -> bool
    decreases moves.len(),
{
    if moves.len() == 0 {
        true
    } else {
        let m = moves.last();
        moves_fit(es, moves.drop_last()) && move_fits(after_moves(es, moves.drop_last()), m.0, m.1 as int, m.2, m.3 as int)
    }
}

/// The law of double entry: whatever sequence of transfers a ledger goes through, accepted
/// or refused, its total stays what it was; so a ledger that starts empty balances at zero
/// however the world's mass has moved since.
pub proof fn law_transfers_keep_the_total(es: Seq<(Seq<char>, i64)>, moves: Seq<(Seq<char>, i64, Seq<char>, i64)>)
    requires
        moves_fit(es, moves),
    ensures
        spec_total(after_moves(es, moves)) == spec_total(es),
        es.len() == 0 ==> spec_total(after_moves(es, moves)) == 0,
    decreases moves.len(),
{
    if moves.len() > 0 {
        let m = moves.last();
        let before = after_moves(es, moves.drop_last());
        law_transfers_keep_the_total(es, moves.drop_last());
        if m.1 == m.3 {
            lemma_record_total(before, m.0, -(m.1 as int));
            lemma_record_total(spec_record(before, m.0, -(m.1 as int)), m.2, m.3 as int);
        }
    }
}

/// Where the world's mass is, in exact grams, by account.
///
/// A sorted listing rather than a hash map, so a report is stable between runs: a report
/// that reorders itself is a report nobody can diff. Account names are qualified
/// (`ground:iron_ore` versus `stock:iron_ore`) so the two sides of a transfer are never
/// the same key.
#[derive(Debug, PartialEq, Eq)]
pub struct Ledger {
    entries: Vec<(String, i64)>,
}

impl View for Ledger {
    type V = Seq<(Seq<char>, i64)>;

    closed spec fn view(&self) -> Seq<(Seq<char>, i64)> {
        listing(self.entries@)
    }
}

impl Ledger {
    /// The listing is sorted by account, so no account appears twice.
    #[verifier::type_invariant]
    spec fn sorted(self) -> bool {
        sorted_listing(listing(self.entries@))
    }

    /// A copy of the ledger, account for account.
    pub fn duplicate(&self) -> (r: Self)
        ensures
            r@ == self@,
    {
        proof {
            use_type_invariant(self);
        }
        let mut entries: Vec<(String, i64)> = Vec::new();
        let mut i: usize = 0;
        while i < self.entries.len()
            invariant
                i <= self.entries@.len(),
                sorted_listing(self@),
                listing(entries@) =~= self@.take(i as int),
            decreases self.entries@.len() - i,
        {
            let name = self.entries[i].0.clone();
            let ghost before = entries@;
            entries.push((name, self.entries[i].1));
            assert(listing(entries@) =~= listing(before).push(self@[i as int]));
            i += 1;
            assert(listing(entries@) =~= self@.take(i as int));
        }
        assert(self@.take(self@.len() as int) =~= self@);
        Ledger { entries }
    }

    /// An empty ledger.
    pub fn new() -> (r: Self)
        ensures
            r@ == Seq::<(Seq<char>, i64)>::empty(),
    {
        let r = Ledger { entries: Vec::new() };
        proof {
            assert(listing(r.entries@) =~= Seq::<(Seq<char>, i64)>::empty());
        }
        r
    }

    /// Record **one side** of a movement of `grams` on `account`. Positive credits,
    /// negative debits; going negative is allowed, because the ledger is an audit and not
    /// a guard. Calling this without its partner *is* the bug the audit catches.
    pub fn record(&mut self, account: &str, grams: i64)
        requires
            fits_i64(spec_of(old(self)@, account@) + grams),
        ensures
            final(self)@ == spec_record(old(self)@, account@, grams as int),
    {
        proof {
            use_type_invariant(&*self);
        }
        let ghost es = self@;
        let i = position_in(&self.entries, account);
        proof {
            lemma_first_upto(es, not_before(account@), es.len() as int);
            assert(forall|j: int| 0 <= j < i ==> text_lt(#[trigger] es[j].0, account@)) by {
                assert forall|j: int| 0 <= j < i implies text_lt(#[trigger] es[j].0, account@) by {
                    assert(!not_before(account@)(es[j]));
                }
            }
            if i < es.len() {
                assert(not_before(account@)(es[i as int]));
            }
        }
        let mut entries: Vec<(String, i64)> = Vec::new();
        std::mem::swap(&mut entries, &mut self.entries);
        assert(listing(entries@) == es);
        if i < entries.len() && same(entries[i].0.as_str(), account) {
            let held = entries[i].1;
            let name = String::from_str(account);
            proof {
                assert(entries@[i as int].0@ == account@);
            }
            entries.set(i, (name, held + grams));
            proof {
                assert(listing(entries@) =~= es.update(i as int, (account@, (held + grams) as i64)));
                let new_es = listing(entries@);
                assert forall|a: int, b: int| 0 <= a < b < new_es.len() implies text_lt(
                    #[trigger] new_es[a].0,
                    #[trigger] new_es[b].0,
                ) by {
                    assert(text_lt(es[a].0, es[b].0));
                }
            }
        } else {
            proof {
                if i < es.len() {
                    assert(es[i as int].0 == entries@[i as int].0@);
                    lemma_text_order(es[i as int].0, account@, account@);
                    assert(text_lt(account@, es[i as int].0));
                }
            }
            entries.insert(i, (String::from_str(account), grams));
            proof {
                let new_es = listing(entries@);
                assert(new_es =~= es.insert(i as int, (account@, grams)));
                assert forall|a: int, b: int| 0 <= a < b < new_es.len() implies text_lt(
                    #[trigger] new_es[a].0,
                    #[trigger] new_es[b].0,
                ) by {
                    if a < i && b == i {
                    } else if a < i && b > i {
                        lemma_text_order(es[a].0, account@, es[b - 1].0);
                        if b - 1 > i {
                            lemma_text_order(account@, es[i as int].0, es[b - 1].0);
                        }
                        lemma_text_order(es[a].0, account@, es[b - 1].0);
                    } else if a == i {
                        if b - 1 > i {
                            lemma_text_order(account@, es[i as int].0, es[b - 1].0);
                        }
                    } else {
                    }
                }
            }
        }
        self.entries = entries;
    }

    /// A transfer with both sides in one call: `grams_in` leaves `from` and `grams_out`
    /// arrives at `to`. The shape that cannot forget its other half.
    ///
    /// Returns the defect, and changes nothing, when the two sides disagree.
    pub fn convert(&mut self, from: &str, grams_in: i64, to: &str, grams_out: i64) -> (r: Option<String>)
        requires
            grams_in != grams_out ==> fits_i64(grams_in - grams_out),
            grams_in == grams_out ==> grams_in > i64::MIN && fits_i64(
                spec_of(old(self)@, from@) - grams_in,
            ) && fits_i64(spec_of(spec_record(old(self)@, from@, -grams_in), to@) + grams_out),
        ensures
            grams_in != grams_out ==> final(self)@ == old(self)@ && (r matches Some(m) && m@
                == unconserved_text(from@, to@, grams_in as int, grams_out as int)),
            grams_in == grams_out ==> r is None && final(self)@ == spec_record(
                spec_record(old(self)@, from@, -grams_in),
                to@,
                grams_out as int,
            ),
            final(self)@ == moved(old(self)@, from@, grams_in as int, to@, grams_out as int),
            grams_in == grams_out ==> spec_total(final(self)@) == spec_total(old(self)@),
            grams_in == grams_out && from@ != to@ ==> spec_of(final(self)@, from@) == spec_of(
                old(self)@,
                from@,
            ) - grams_in && spec_of(final(self)@, to@) == spec_of(old(self)@, to@) + grams_out,
    {
        if grams_in != grams_out {
            let mut line = String::from_str("`");
            line.append(from);
            line.append("` → `");
            line.append(to);
            line.append("` does not conserve: ");
            let taken = show_i64(grams_in);
            line.append(taken.as_str());
            line.append(" g in, ");
            let given = show_i64(grams_out);
            line.append(given.as_str());
            line.append(" g out, a difference of ");
            let difference = show_i64(grams_in - grams_out);
            line.append(difference.as_str());
            line.append(" g");
            return Some(line);
        }
        proof {
            use_type_invariant(&*self);
        }
        let ghost es0 = self@;
        self.record(from, -grams_in);
        proof {
            use_type_invariant(&*self);
        }
        let ghost es1 = self@;
        self.record(to, grams_out);
        proof {
            lemma_record_total(es0, from@, -grams_in);
            lemma_record_total(es1, to@, grams_out as int);
            if from@ != to@ {
                lemma_record_reads_back(es0, from@, -grams_in, to@);
                lemma_record_sorted(es0, from@, -grams_in);
                lemma_record_reads_back(es1, to@, grams_out as int, from@);
            }
        }
        None
    }

    /// What the ledger says about one account, in grams.
    pub fn of(&self, account: &str) -> (r: i64)
        ensures
            r == spec_of(self@, account@),
    {
        proof {
            use_type_invariant(self);
        }
        let i = position_in(&self.entries, account);
        if i < self.entries.len() && same(self.entries[i].0.as_str(), account) {
            self.entries[i].1
        } else {
            0
        }
    }

    /// The whole world's balance. **Zero means every movement had two sides.**
    pub fn total_g(&self) -> (r: i64)
        requires
            sums_fit(self@),
        ensures
            r == spec_total(self@),
    {
        let ghost es = self@;
        let mut total: i64 = 0;
        let mut i: usize = 0;
        while i < self.entries.len()
            invariant
                i <= self.entries@.len(),
                es == listing(self.entries@),
                sums_fit(es),
                total == listing_sum(es, i as int),
            decreases self.entries@.len() - i,
        {
            assert(fits_i64(listing_sum(es, i + 1)));
            total = total + self.entries[i].1;
            i += 1;
        }
        total
    }

    /// Whether the world has conserved what it has: the one predicate a verifier needs.
    pub fn balances(&self) -> (r: bool)
        requires
            sums_fit(self@),
        ensures
            r == (spec_total(self@) == 0),
    {
        self.total_g() == 0
    }

    /// Everything the ledger knows, account and grams, in a stable order.
    pub fn entries(&self) -> (r: Vec<(&str, i64)>)
        ensures
            borrowed_listing(r@) == self@,
            sorted_listing(self@),
    {
        proof {
            use_type_invariant(self);
        }
        let mut out: Vec<(&str, i64)> = Vec::new();
        let mut i: usize = 0;
        while i < self.entries.len()
            invariant
                i <= self.entries@.len(),
                borrowed_listing(out@) =~= self@.take(i as int),
            decreases self.entries@.len() - i,
        {
            let ghost before = out@;
            out.push((self.entries[i].0.as_str(), self.entries[i].1));
            assert(borrowed_listing(out@) =~= borrowed_listing(before).push(self@[i as int]));
            i += 1;
            assert(borrowed_listing(out@) =~= self@.take(i as int));
        }
        assert(self@.take(self@.len() as int) =~= self@);
        out
    }

    /// Where the mass currently is: every account holding a nonzero amount, in order.
    pub fn holdings(&self) -> (r: Vec<(&str, i64)>)
        ensures
            borrowed_listing(r@) == spec_holdings(self@),
    {
        let mut out: Vec<(&str, i64)> = Vec::new();
        let mut i: usize = 0;
        while i < self.entries.len()
            invariant
                i <= self.entries@.len(),
                borrowed_listing(out@) =~= nonzero_upto(self@, i as int),
            decreases self.entries@.len() - i,
        {
            if self.entries[i].1 != 0 {
                let ghost before = out@;
                out.push((self.entries[i].0.as_str(), self.entries[i].1));
                assert(borrowed_listing(out@) =~= borrowed_listing(before).push(self@[i as int]));
            }
            i += 1;
            assert(borrowed_listing(out@) =~= nonzero_upto(self@, i as int));
        }
        out
    }

    /// The ledger as findings a person can read: only the imbalance is a finding.
    pub fn findings(&self) -> (r: Vec<String>)
        requires
            sums_fit(self@),
        ensures
            spec_total(self@) == 0 ==> r@.len() == 0,
            spec_total(self@) != 0 ==> r@.len() == 1 && r@[0]@ == imbalance_text(
                spec_total(self@),
                self@.len(),
            ),
    {
        let mut findings: Vec<String> = Vec::new();
        if !self.balances() {
            let mut line = String::from_str("the world's mass does not balance: ");
            let total = show_i64(self.total_g());
            line.append(total.as_str());
            line.append(" g unaccounted for across ");
            let count = show_usize(self.entries.len());
            line.append(count.as_str());
            line.append(
                " account(s) — some movement had only one side, which is the one thing that cannot happen",
            );
            findings.push(line);
        }
        findings
    }
}

impl Default for Ledger {
    fn default() -> (r: Self)
        ensures
            r@ == Seq::<(Seq<char>, i64)>::empty(),
    {
        Ledger::new()
    }
}

/// The one finding of an audit that does not conserve: the mass nobody dug up, sized.
pub open spec fn unbuilt_text(loose: int, extracted: int, standing: int, held: int) -> Seq<char> {
    "the city stands on "@ + decimal(-loose) + " g of material the ground never gave up: "@
        + decimal(extracted) + " g has been taken out, "@ + decimal(standing)
        + " g is standing and "@ + decimal(held)
        + " g is held, so something here was not built from anything"@
}

/// The world's mass audit: where the mass is, and the one reconciliation a city can fail.
///
/// > everything the world holds equals everything it has taken out of its own ground.
///
/// [`MassAudit::loose_g`] going **negative** means the city stands on material nobody dug
/// up: material from nothing, printed as a quantity.
#[derive(Clone, Debug, PartialEq, Eq)]
pub struct MassAudit {
    /// Where the mass is: the ground's depletion as a negative, the standing and ruined
    /// material as positives. A reading, not a verdict.
    pub ledger: Ledger,
    /// Total mass debited from the ground, in grams, as a positive number.
    pub extracted_g: i64,
    /// Total mass standing in the city: structures, and the remains of retired ones.
    pub standing_g: i64,
    /// Total mass held loose in the city's own hands: at sites and in carriers.
    pub held_g: i64,
    /// Structures that could not enter the audit at all, reported rather than skipped.
    pub defects: Vec<String>,
}

/// Whether an audit's reconciliation can be computed in 64 bits.
pub open spec fn audit_fits(extracted: i64, standing: i64, held: i64) -> bool {
    fits_i64(extracted - standing) && fits_i64(extracted - standing - held)
        && extracted - standing - held > i64::MIN
}

impl MassAudit {
    /// Material the world has taken out of its ground and not put anywhere, in grams.
    /// Negative is the defect, and its size is the material that was never dug up.
    pub fn loose_g(&self) -> (r: i64)
        requires
            audit_fits(self.extracted_g, self.standing_g, self.held_g),
        ensures
            r == self.extracted_g - self.standing_g - self.held_g,
    {
        self.extracted_g - self.standing_g - self.held_g
    }

    /// Whether every gram the city is holding came out of its own ground.
    pub fn holdings_are_paid_for(&self) -> (r: bool)
        requires
            fits_i64(self.extracted_g - self.standing_g),
        ensures
            r == (self.held_g <= self.extracted_g - self.standing_g),
    {
        self.held_g <= self.extracted_g - self.standing_g
    }

    /// Whether every gram standing in this world came out of its own ground.
    pub fn conserves(&self) -> (r: bool)
        requires
            audit_fits(self.extracted_g, self.standing_g, self.held_g),
        ensures
            r == (self.extracted_g - self.standing_g - self.held_g >= 0),
    {
        self.loose_g() >= 0
    }

    /// Where the mass is, in a stable order.
    pub fn holdings(&self) -> (r: Vec<(&str, i64)>)
        ensures
            borrowed_listing(r@) == spec_holdings(self.ledger@),
    {
        self.ledger.holdings()
    }

    /// What the ledger says about one account, in grams.
    pub fn of(&self, account: &str) -> (r: i64)
        ensures
            r == spec_of(self.ledger@, account@),
    {
        self.ledger.of(account)
    }

    /// The audit as findings a person can read: the structures that could not be weighed,
    /// then the mass that was never dug up, with its amount.
    pub fn findings(&self) -> (r: Vec<String>)
        requires
            audit_fits(self.extracted_g, self.standing_g, self.held_g),
        ensures
            views(r@) == views(self.defects@) + (if self.extracted_g - self.standing_g - self.held_g >= 0 {
                Seq::<Seq<char>>::empty()
            } else {
                seq![
                    unbuilt_text(
                        self.extracted_g - self.standing_g - self.held_g,
                        self.extracted_g as int,
                        self.standing_g as int,
                        self.held_g as int,
                    ),
                ]
            }),
    {
        let mut findings: Vec<String> = Vec::new();
        let mut i: usize = 0;
        while i < self.defects.len()
            invariant
                i <= self.defects@.len(),
                views(findings@) =~= views(self.defects@).take(i as int),
            decreases self.defects@.len() - i,
        {
            let line = self.defects[i].clone();
            let ghost before = findings@;
            findings.push(line);
            assert(views(findings@) =~= views(before).push(self.defects@[i as int]@));
            i += 1;
            assert(views(findings@) =~= views(self.defects@).take(i as int));
        }
        assert(views(self.defects@).take(self.defects@.len() as int) =~= views(self.defects@));
        if self.conserves() {
            assert(views(findings@) =~= views(self.defects@) + Seq::<Seq<char>>::empty());
            return findings;
        }
        let mut line = String::from_str("the city stands on ");
        let missing = show_i64(-self.loose_g());
        line.append(missing.as_str());
        line.append(" g of material the ground never gave up: ");
        let extracted = show_i64(self.extracted_g);
        line.append(extracted.as_str());
        line.append(" g has been taken out, ");
        let standing = show_i64(self.standing_g);
        line.append(standing.as_str());
        line.append(" g is standing and ");
        let held = show_i64(self.held_g);
        line.append(held.as_str());
        line.append(" g is held, so something here was not built from anything");
        let ghost before = findings@;
        findings.push(line);
        assert(views(findings@) =~= views(before).push(unbuilt_text(
            self.extracted_g - self.standing_g - self.held_g,
            self.extracted_g as int,
            self.standing_g as int,
            self.held_g as int,
        )));
        findings
    }
}

impl Default for MassAudit {
    fn default() -> (r: Self)
        ensures
            r.ledger@ == Seq::<(Seq<char>, i64)>::empty(),
            r.extracted_g == 0,
            r.standing_g == 0,
            r.held_g == 0,
            r.defects@.len() == 0,
    {
        MassAudit {
            ledger: Ledger::new(),
            extracted_g: 0,
            standing_g: 0,
            held_g: 0,
            defects: Vec::new(),
        }
    }
}

impl Clone for Ledger {
    fn clone(&self) -> (r: Self)
        ensures
            r@ == self@,
    {
        self.duplicate()
    }
}

} // verus!
