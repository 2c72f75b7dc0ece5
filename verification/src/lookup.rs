//! The first entry of a table that answers to a name: the one lookup rule every table in
//! the library follows.
use vstd::prelude::*;

use crate::strings::same;

verus! {

/// The index of the first of the first `n` entries of `s` that satisfies `p`, or -1.
pub open spec fn first_upto<T>(s: Seq<T>, p: spec_fn(T) -> bool, n: int) -> int
    decreases n,
{
    if n <= 0 {
        -1
    } else {
        let earlier = first_upto(s, p, n - 1);
        if earlier >= 0 {
            earlier
        } else if p(s[n - 1]) {
            n - 1
        } else {
            -1
        }
    }
}

/// The index of the first entry of `s` that satisfies `p`, or -1.
pub open spec fn first_of<T>(s: Seq<T>, p: spec_fn(T) -> bool) -> int {
    first_upto(s, p, s.len() as int)
}

/// What `first_upto` means: the smallest index that satisfies the predicate.
pub proof fn lemma_first_upto<T>(s: Seq<T>, p: spec_fn(T) -> bool, n: int)
    requires
        0 <= n <= s.len(),
    ensures
        first_upto(s, p, n) == -1 ==> forall|j: int| 0 <= j < n ==> !p(#[trigger] s[j]),
        first_upto(s, p, n) != -1 ==> {
            let k = first_upto(s, p, n);
            &&& 0 <= k < n
            &&& p(s[k])
            &&& forall|j: int| 0 <= j < k ==> !p(#[trigger] s[j])
        },
    decreases n,
{
    if n > 0 {
        lemma_first_upto(s, p, n - 1);
    }
}

/// Everything `f` gives for each entry of `s`, in order.
pub open spec fn each_of<T, U>(s: Seq<T>, f: spec_fn(T) -> Seq<U>) -> Seq<U>
    decreases s.len(),
{
    if s.len() == 0 {
        Seq::empty()
    } else {
        each_of(s.drop_last(), f) + f(s.last())
    }
}

/// One more entry gives what it gives after everything before it.
pub proof fn lemma_each_of_step<T, U>(s: Seq<T>, f: spec_fn(T) -> Seq<U>, i: int)
    requires
        0 <= i < s.len(),
    ensures
        each_of(s.take(i + 1), f) == each_of(s.take(i), f) + f(s[i]),
{
    assert(s.take(i + 1).drop_last() =~= s.take(i));
}

/// What `f` gives for two runs is what it gives for each, one after the other.
pub proof fn lemma_each_of_append<T, U>(a: Seq<T>, b: Seq<T>, f: spec_fn(T) -> Seq<U>)
    ensures
        each_of(a + b, f) == each_of(a, f) + each_of(b, f),
    decreases b.len(),
{
    if b.len() == 0 {
        assert(a + b =~= a);
        assert(each_of(a, f) + each_of(b, f) =~= each_of(a, f));
    } else {
        lemma_each_of_append(a, b.drop_last(), f);
        assert((a + b).drop_last() =~= a + b.drop_last());
        assert((a + b).last() == b.last());
        assert(each_of(a, f) + each_of(b.drop_last(), f) + f(b.last()) =~= each_of(a, f) + (
        each_of(b.drop_last(), f) + f(b.last())));
    }
}

/// Taking the whole of a sequence is the sequence.
pub proof fn lemma_take_all<T>(s: Seq<T>)
    ensures
        s.take(s.len() as int) == s,
{
    assert(s.take(s.len() as int) =~= s);
}

/// Whether a table of names carries this one.
pub open spec fn listed(table: Seq<&'static str>, name: Seq<char>) -> bool {
    exists|k: int| 0 <= k < table.len() && #[trigger] table[k]@ == name
}

/// Whether a table of names carries this one.
pub fn is_listed(table: &Vec<&'static str>, name: &str) -> (r: bool)
    ensures
        r == listed(table@, name@),
{
    let mut i: usize = 0;
    while i < table.len()
        invariant
            i <= table@.len(),
            forall|k: int| 0 <= k < i ==> #[trigger] table@[k]@ != name@,
        decreases table@.len() - i,
    {
        if same(table[i], name) {
            return true;
        }
        i += 1;
    }
    false
}

} // verus!
