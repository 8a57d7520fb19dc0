//! Facts about counts over members and sums of amounts.
use vstd::prelude::*;

use crate::model::{
    build_obligations, contract_inflow, count_distinct_where, count_where, index_members, is_addr,
    sum_distinct, records_with_commitments,
    seq_sum,
};
use crate::storage::{list_of, rkey, RecordKey};
use crate::types::{Effect, MemberRecord, MemberState};
use crate::types::Address;

verus! {

pub proof fn lemma_count_bound(s: Seq<Address>, p: spec_fn(Address) -> bool)
    ensures
        count_where(s, p) <= s.len(),
    decreases s.len(),
{
    if s.len() > 0 {
        lemma_count_bound(s.drop_last(), p);
    }
}

pub proof fn lemma_count_frame(s: Seq<Address>, p: spec_fn(Address) -> bool, q: spec_fn(Address) -> bool)
    requires
        forall|i: int| 0 <= i < s.len() ==> p(#[trigger] s[i]) == q(s[i]),
    ensures
        count_where(s, p) == count_where(s, q),
    decreases s.len(),
{
    if s.len() > 0 {
        let d = s.drop_last();
        assert forall|i: int| 0 <= i < d.len() implies p(#[trigger] d[i]) == q(d[i]) by {
            assert(d[i] == s[i]);
        }
        lemma_count_frame(d, p, q);
        assert(p(s[s.len() - 1]) == q(s[s.len() - 1]));
    }
}

/// A member found by `p` is counted at least once.
pub proof fn lemma_count_positive(s: Seq<Address>, p: spec_fn(Address) -> bool, a: Address)
    requires
        s.contains(a),
        p(a),
    ensures
        count_where(s, p) >= 1,
    decreases s.len(),
{
    let d = s.drop_last();
    if s.last() != a {
        let i = choose|i: int| 0 <= i < s.len() && s[i] == a;
        assert(i != s.len() - 1);
        assert(d[i] == a);
        lemma_count_positive(d, p, a);
    }
}

/// In a list without repeats, one member leaving `p` lowers the count by one.
pub proof fn lemma_count_step_down(
    s: Seq<Address>,
    p: spec_fn(Address) -> bool,
    q: spec_fn(Address) -> bool,
    a: Address,
)
    requires
        s.no_duplicates(),
        s.contains(a),
        p(a),
        !q(a),
        forall|x: Address| x != a ==> #[trigger] p(x) == q(x),
    ensures
        count_where(s, q) + 1 == count_where(s, p),
    decreases s.len(),
{
    let d = s.drop_last();
    assert(d.no_duplicates()) by {
        assert forall|i: int, j: int| 0 <= i < d.len() && 0 <= j < d.len() && i != j implies d[i]
            != d[j] by {
            assert(d[i] == s[i] && d[j] == s[j]);
        }
    }
    if s.last() == a {
        assert forall|i: int| 0 <= i < d.len() implies p(#[trigger] d[i]) == q(d[i]) by {
            assert(d[i] == s[i]);
            assert(s[i] != s[s.len() - 1]);
        }
        lemma_count_frame(d, p, q);
    } else {
        let i = choose|i: int| 0 <= i < s.len() && s[i] == a;
        assert(i != s.len() - 1);
        assert(d[i] == a);
        lemma_count_step_down(d, p, q, a);
    }
}

pub proof fn lemma_count_distinct_bound(s: Seq<Address>, p: spec_fn(Address) -> bool)
    ensures
        count_distinct_where(s, p) <= s.len(),
        count_distinct_where(s, p) == s.len() ==> s.no_duplicates() && forall|i: int|
            0 <= i < s.len() ==> p(#[trigger] s[i]),
    decreases s.len(),
{
    if s.len() > 0 {
        let d = s.drop_last();
        lemma_count_distinct_bound(d, p);
        if count_distinct_where(s, p) == s.len() {
            assert(count_distinct_where(d, p) == d.len());
            assert(!d.contains(s.last()));
            assert(p(s.last()));
            assert forall|i: int, j: int| 0 <= i < s.len() && 0 <= j < s.len() && i != j implies s[i]
                != s[j] by {
                if i == s.len() - 1 {
                    assert(d[j] == s[j]);
                } else if j == s.len() - 1 {
                    assert(d[i] == s[i]);
                } else {
                    assert(d[i] == s[i] && d[j] == s[j]);
                }
            }
            assert forall|i: int| 0 <= i < s.len() implies p(#[trigger] s[i]) by {
                if i < s.len() - 1 {
                    assert(d[i] == s[i]);
                }
            }
        }
    }
}

pub proof fn lemma_count_distinct_frame(
    s: Seq<Address>,
    p: spec_fn(Address) -> bool,
    q: spec_fn(Address) -> bool,
)
    requires
        forall|i: int| 0 <= i < s.len() ==> p(#[trigger] s[i]) == q(s[i]),
    ensures
        count_distinct_where(s, p) == count_distinct_where(s, q),
    decreases s.len(),
{
    if s.len() > 0 {
        let d = s.drop_last();
        assert forall|i: int| 0 <= i < d.len() implies p(#[trigger] d[i]) == q(d[i]) by {
            assert(d[i] == s[i]);
        }
        lemma_count_distinct_frame(d, p, q);
        assert(p(s[s.len() - 1]) == q(s[s.len() - 1]));
    }
}

/// One listed member entering `p` raises the distinct count by one.
pub proof fn lemma_count_distinct_step_up(
    s: Seq<Address>,
    p: spec_fn(Address) -> bool,
    q: spec_fn(Address) -> bool,
    a: Address,
)
    requires
        s.contains(a),
        !p(a),
        q(a),
        forall|x: Address| x != a ==> #[trigger] p(x) == q(x),
    ensures
        count_distinct_where(s, q) == count_distinct_where(s, p) + 1,
    decreases s.len(),
{
    let d = s.drop_last();
    if s.last() == a {
        if d.contains(a) {
            lemma_count_distinct_step_up(d, p, q, a);
        } else {
            assert forall|i: int| 0 <= i < d.len() implies p(#[trigger] d[i]) == q(d[i]) by {
                assert(d[i] != a);
            }
            lemma_count_distinct_frame(d, p, q);
        }
    } else {
        let i = choose|i: int| 0 <= i < s.len() && s[i] == a;
        assert(i != s.len() - 1);
        assert(d[i] == a);
        lemma_count_distinct_step_up(d, p, q, a);
    }
}

/// Nothing in `s` satisfies `p`, so nothing is counted.
pub proof fn lemma_count_distinct_none(s: Seq<Address>, p: spec_fn(Address) -> bool)
    requires
        forall|i: int| 0 <= i < s.len() ==> !p(#[trigger] s[i]),
    ensures
        count_distinct_where(s, p) == 0,
    decreases s.len(),
{
    if s.len() > 0 {
        let d = s.drop_last();
        assert forall|i: int| 0 <= i < d.len() implies !p(#[trigger] d[i]) by {
            assert(d[i] == s[i]);
        }
        lemma_count_distinct_none(d, p);
        assert(!p(s[s.len() - 1]));
    }
}

/// What the one-longer prefix contains.
pub proof fn lemma_take_contains(s: Seq<Address>, i: int)
    requires
        0 <= i < s.len(),
    ensures
        forall|x: Address| #[trigger] s.take(i + 1).contains(x) == (s.take(i).contains(x) || x == s[i]),
{
    let t0 = s.take(i);
    let t1 = s.take(i + 1);
    assert forall|x: Address| #[trigger] t1.contains(x) == (t0.contains(x) || x == s[i]) by {
        if t1.contains(x) {
            let j = choose|j: int| 0 <= j < t1.len() && t1[j] == x;
            if j < i {
                assert(t0[j] == x);
            }
        }
        if t0.contains(x) {
            let j = choose|j: int| 0 <= j < t0.len() && t0[j] == x;
            assert(t1[j] == x);
        }
        if x == s[i] {
            assert(t1[i] == x);
        }
    }
}

/// The obligations map has a key for each listed member, and with only
/// positive amounts each obligation is positive.
pub proof fn lemma_obligations_facts(ms: Seq<Address>, amounts: Seq<i128>)
    requires
        ms.len() == amounts.len(),
    ensures
        forall|x: Address| #[trigger] build_obligations(ms, amounts).dom().contains(x) == ms.contains(x),
        (forall|j: int| 0 <= j < amounts.len() ==> #[trigger] amounts[j] > 0) ==> forall|x: Address|
            #[trigger] build_obligations(ms, amounts).dom().contains(x) ==> build_obligations(
                ms,
                amounts,
            )[x] > 0,
    decreases ms.len(),
{
    if ms.len() > 0 {
        let dm = ms.drop_last();
        let da = amounts.drop_last();
        let n = ms.len() - 1;
        lemma_obligations_facts(dm, da);
        let b = build_obligations(ms, amounts);
        let bd = build_obligations(dm, da);
        assert(b == bd.insert(ms[n], amounts[n]));
        assert(ms.take(n) =~= dm);
        lemma_take_contains(ms, n);
        assert(ms.take(n + 1) =~= ms);
        assert forall|x: Address| #[trigger] b.dom().contains(x) == ms.contains(x) by {
            assert(ms.take(n + 1).contains(x) == (ms.take(n).contains(x) || x == ms[n]));
        }
        if forall|j: int| 0 <= j < amounts.len() ==> #[trigger] amounts[j] > 0 {
            assert forall|j: int| 0 <= j < da.len() implies #[trigger] da[j] > 0 by {
                assert(da[j] == amounts[j]);
            }
            assert(amounts[n] > 0);
            assert forall|x: Address| #[trigger] b.dom().contains(x) implies b[x] > 0 by {
                if x != ms[n] {
                    assert(bd.dom().contains(x));
                }
            }
        }
    }
}

/// Extending a prefix by one pair extends the obligations by that pair.
pub proof fn lemma_obligations_step(ms: Seq<Address>, amounts: Seq<i128>, i: int)
    requires
        ms.len() == amounts.len(),
        0 <= i < ms.len(),
    ensures
        build_obligations(ms.take(i + 1), amounts.take(i + 1)) == build_obligations(
            ms.take(i),
            amounts.take(i),
        ).insert(ms[i], amounts[i]),
{
    assert(ms.take(i + 1).drop_last() =~= ms.take(i));
    assert(amounts.take(i + 1).drop_last() =~= amounts.take(i));
}

/// Extending a prefix by one element.
pub proof fn lemma_count_take_step(s: Seq<Address>, p: spec_fn(Address) -> bool, i: int)
    requires
        0 <= i < s.len(),
    ensures
        count_where(s.take(i + 1), p) == count_where(s.take(i), p) + if p(s[i]) {
            1nat
        } else {
            0nat
        },
{
    assert(s.take(i + 1).drop_last() =~= s.take(i));
}

/// Nothing in `s` satisfies `p`, so the count is zero.
pub proof fn lemma_count_zero(s: Seq<Address>, p: spec_fn(Address) -> bool)
    requires
        forall|i: int| 0 <= i < s.len() ==> !p(#[trigger] s[i]),
    ensures
        count_where(s, p) == 0,
    decreases s.len(),
{
    if s.len() > 0 {
        let d = s.drop_last();
        assert forall|i: int| 0 <= i < d.len() implies !p(#[trigger] d[i]) by {
            assert(d[i] == s[i]);
        }
        lemma_count_zero(d, p);
        assert(!p(s[s.len() - 1]));
    }
}

/// The index list of `a` after indexing the members `ms`.
pub proof fn lemma_index_list(index: Map<Address, Seq<u64>>, id: u64, ms: Seq<Address>, a: Address)
    ensures
        list_of(index_members(index, id, ms), a) =~= list_of(index, a) + Seq::new(
            count_where(ms, is_addr(a)),
            |i: int| id,
        ),
{
    if !index.dom().contains(a) && !ms.contains(a) {
        assert forall|i: int| 0 <= i < ms.len() implies !(is_addr(a))(#[trigger] ms[i]) by {
            if ms[i] == a {
                assert(ms.contains(a));
            }
        }
        lemma_count_zero(ms, is_addr(a));
    }
}

/// Indexing one more member appends the vault id to that member's list.
pub proof fn lemma_index_members_step(index: Map<Address, Seq<u64>>, id: u64, ms: Seq<Address>, i: int)
    requires
        0 <= i < ms.len(),
    ensures
        index_members(index, id, ms.take(i + 1)) =~= index_members(index, id, ms.take(i)).insert(
            ms[i],
            list_of(index_members(index, id, ms.take(i)), ms[i]).push(id),
        ),
{
    let m0 = index_members(index, id, ms.take(i));
    let m1 = index_members(index, id, ms.take(i + 1));
    let target = m0.insert(ms[i], list_of(m0, ms[i]).push(id));
    lemma_take_contains(ms, i);
    assert forall|a: Address| #[trigger] m1.dom().contains(a) == target.dom().contains(a) by {}
    assert forall|a: Address| #[trigger] m1.dom().contains(a) implies m1[a] == target[a] by {
        lemma_count_take_step(ms, is_addr(a), i);
        lemma_index_list(index, id, ms.take(i), a);
        if a == ms[i] {
            assert(m1[a] =~= target[a]);
        } else {
            assert(m0.dom().contains(a));
        }
    }
}

/// Committing one more member records that member's latest amount.
pub proof fn lemma_commitments_step(
    records: Map<RecordKey, MemberRecord>,
    id: u64,
    ms: Seq<Address>,
    amounts: Seq<i128>,
    i: int,
)
    requires
        ms.len() == amounts.len(),
        0 <= i < ms.len(),
    ensures
        records_with_commitments(records, id, ms.take(i + 1), amounts.take(i + 1))
            =~= records_with_commitments(records, id, ms.take(i), amounts.take(i)).insert(
            rkey(id, ms[i]),
            MemberRecord { state: MemberState::Committed, amount: amounts[i] },
        ),
{
    lemma_take_contains(ms, i);
    lemma_obligations_step(ms, amounts, i);
}

pub proof fn lemma_sum_distinct_frame(s: Seq<Address>, f: spec_fn(Address) -> int, g: spec_fn(Address) -> int)
    requires
        forall|i: int| 0 <= i < s.len() ==> f(#[trigger] s[i]) == g(s[i]),
    ensures
        sum_distinct(s, f) == sum_distinct(s, g),
    decreases s.len(),
{
    if s.len() > 0 {
        let d = s.drop_last();
        assert forall|i: int| 0 <= i < d.len() implies f(#[trigger] d[i]) == g(d[i]) by {
            assert(d[i] == s[i]);
        }
        lemma_sum_distinct_frame(d, f, g);
        assert(f(s[s.len() - 1]) == g(s[s.len() - 1]));
    }
}

/// Changing the value at one listed member changes the sum by the difference.
pub proof fn lemma_sum_distinct_step(
    s: Seq<Address>,
    f: spec_fn(Address) -> int,
    g: spec_fn(Address) -> int,
    a: Address,
)
    requires
        s.contains(a),
        forall|x: Address| x != a ==> #[trigger] f(x) == g(x),
    ensures
        sum_distinct(s, g) == sum_distinct(s, f) + g(a) - f(a),
    decreases s.len(),
{
    let d = s.drop_last();
    if s.last() == a {
        if d.contains(a) {
            lemma_sum_distinct_step(d, f, g, a);
        } else {
            assert forall|i: int| 0 <= i < d.len() implies f(#[trigger] d[i]) == g(d[i]) by {
                assert(d[i] != a);
            }
            lemma_sum_distinct_frame(d, f, g);
        }
    } else {
        let i = choose|i: int| 0 <= i < s.len() && s[i] == a;
        assert(i != s.len() - 1);
        assert(d[i] == a);
        lemma_sum_distinct_step(d, f, g, a);
    }
}

/// A sum of values that are never negative is never negative.
pub proof fn lemma_sum_distinct_nonneg(s: Seq<Address>, f: spec_fn(Address) -> int)
    requires
        forall|i: int| 0 <= i < s.len() ==> f(#[trigger] s[i]) >= 0,
    ensures
        sum_distinct(s, f) >= 0,
    decreases s.len(),
{
    if s.len() > 0 {
        let d = s.drop_last();
        assert forall|i: int| 0 <= i < d.len() implies f(#[trigger] d[i]) >= 0 by {
            assert(d[i] == s[i]);
        }
        lemma_sum_distinct_nonneg(d, f);
        assert(f(s[s.len() - 1]) >= 0);
    }
}

pub proof fn lemma_sum_distinct_zero(s: Seq<Address>, f: spec_fn(Address) -> int)
    requires
        forall|i: int| 0 <= i < s.len() ==> f(#[trigger] s[i]) == 0,
    ensures
        sum_distinct(s, f) == 0,
    decreases s.len(),
{
    if s.len() > 0 {
        let d = s.drop_last();
        assert forall|i: int| 0 <= i < d.len() implies f(#[trigger] d[i]) == 0 by {
            assert(d[i] == s[i]);
        }
        lemma_sum_distinct_zero(d, f);
        assert(f(s[s.len() - 1]) == 0);
    }
}

pub proof fn lemma_inflow_single(e: Effect)
    ensures
        contract_inflow(seq![e]) == crate::model::effect_inflow(e),
{
    assert(seq![e].drop_last() =~= Seq::<Effect>::empty());
    assert(contract_inflow(Seq::<Effect>::empty()) == 0);
    assert(seq![e].last() == e);
}

/// The flow of two lists of effects one after the other is the sum of their flows.
pub proof fn lemma_inflow_append(a: Seq<Effect>, b: Seq<Effect>)
    ensures
        contract_inflow(a + b) == contract_inflow(a) + contract_inflow(b),
    decreases b.len(),
{
    if b.len() > 0 {
        lemma_inflow_append(a, b.drop_last());
        assert((a + b).drop_last() =~= a + b.drop_last());
        assert((a + b).last() == b.last());
    } else {
        assert(a + b =~= a);
    }
}

/// Extending a prefix by one element adds that element to the sum.
pub proof fn lemma_sum_prefix_step(s: Seq<i128>, i: int)
    requires
        0 <= i < s.len(),
    ensures
        seq_sum(s.take(i + 1)) == seq_sum(s.take(i)) + s[i],
{
    assert(s.take(i + 1).drop_last() =~= s.take(i));
}

/// With no negative amounts, a prefix sums to no more than the whole.
pub proof fn lemma_sum_prefix_le(s: Seq<i128>, i: int)
    requires
        0 <= i <= s.len(),
        forall|j: int| 0 <= j < s.len() ==> #[trigger] s[j] >= 0,
    ensures
        0 <= seq_sum(s.take(i)) <= seq_sum(s),
    decreases s.len() - i,
{
    if i == s.len() {
        assert(s.take(i) =~= s);
        lemma_sum_nonneg(s);
    } else {
        lemma_sum_prefix_step(s, i);
        lemma_sum_prefix_le(s, i + 1);
        let t = s.take(i);
        assert forall|j: int| 0 <= j < t.len() implies #[trigger] t[j] >= 0 by {
            assert(t[j] == s[j]);
        }
        lemma_sum_nonneg(t);
    }
}

pub proof fn lemma_sum_nonneg(s: Seq<i128>)
    requires
        forall|j: int| 0 <= j < s.len() ==> #[trigger] s[j] >= 0,
    ensures
        seq_sum(s) >= 0,
    decreases s.len(),
{
    if s.len() > 0 {
        let d = s.drop_last();
        assert forall|j: int| 0 <= j < d.len() implies #[trigger] d[j] >= 0 by {
            assert(d[j] == s[j]);
        }
        lemma_sum_nonneg(d);
    }
}

} // verus!
