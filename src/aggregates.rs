use vstd::prelude::*;

use crate::entities::{Branch, Keyed, Owned};

verus! {

/// No two rows of `s` share an identifier.
pub open spec fn keys_distinct<T: Keyed>(s: Seq<T>) -> bool {
    forall|i: int, j: int|
        0 <= i < s.len() && 0 <= j < s.len() && i != j ==> #[trigger] s[i].row_id()
            != #[trigger] s[j].row_id()
}

/// Some row of `s` has the identifier `k`.
pub open spec fn has_key<T: Keyed>(s: Seq<T>, k: u128) -> bool {
    exists|i: int| 0 <= i < s.len() && #[trigger] s[i].row_id() == k
}

/// The place of the row with identifier `k` in `s`; meaningful when
/// `has_key(s, k)`.
pub open spec fn key_index<T: Keyed>(s: Seq<T>, k: u128) -> int {
    choose|i: int| 0 <= i < s.len() && #[trigger] s[i].row_id() == k
}

/// With unique identifiers, the row found by its identifier is the one at
/// `key_index`.
pub proof fn lemma_key_index<T: Keyed>(s: Seq<T>, i: int)
    requires
        keys_distinct(s),
        0 <= i < s.len(),
    ensures
        key_index(s, s[i].row_id()) == i,
        has_key(s, s[i].row_id()),
{
    assert(s[i].row_id() == s[i].row_id());
}

/// How many rows of `s` belong to the branch `b`.
pub open spec fn count_in_branch<T: Owned>(s: Seq<T>, b: u128) -> nat
    decreases s.len(),
{
    if s.len() == 0 {
        0
    } else {
        count_in_branch(s.drop_last(), b) + if s.last().row_branch() == b {
            1nat
        } else {
            0nat
        }
    }
}

/// How many rows of `s` belong to the bank `b`.
pub open spec fn count_in_bank<T: Owned>(s: Seq<T>, b: u128) -> nat
    decreases s.len(),
{
    if s.len() == 0 {
        0
    } else {
        count_in_bank(s.drop_last(), b) + if s.last().row_bank() == b {
            1nat
        } else {
            0nat
        }
    }
}

/// One of the amounts a branch keeps and its bank sums up.
#[derive(Debug, Clone, Copy, PartialEq, Eq, Structural)]
pub enum BranchTotal {
    Money,
    Debt,
    Loans,
}

/// The amount `f` of branch `br`.
pub open spec fn branch_value(br: Branch, f: BranchTotal) -> i64 {
    match f {
        BranchTotal::Money => br.total_money,
        BranchTotal::Debt => br.debt_to_collect,
        BranchTotal::Loans => br.loans_given,
    }
}

/// The sum of the amounts `f` of the branches of bank `b` in `s`.
pub open spec fn branch_sum(s: Seq<Branch>, b: u128, f: BranchTotal) -> int
    decreases s.len(),
{
    if s.len() == 0 {
        0
    } else {
        branch_sum(s.drop_last(), b, f) + if s.last().bank_id == b {
            branch_value(s.last(), f) as int
        } else {
            0
        }
    }
}

/// The money held by the branches of bank `b` in `s`.
pub open spec fn branch_money(s: Seq<Branch>, b: u128) -> int {
    branch_sum(s, b, BranchTotal::Money)
}

/// Two tables whose rows, place by place, have the same owners.
pub open spec fn same_owners<T: Owned>(s: Seq<T>, t: Seq<T>) -> bool {
    s.len() == t.len() && forall|i: int|
        0 <= i < s.len() ==> #[trigger] s[i].row_branch() == t[i].row_branch()
            && s[i].row_bank() == t[i].row_bank()
}

pub proof fn lemma_counts_same_owners<T: Owned>(s: Seq<T>, t: Seq<T>, b: u128)
    requires
        same_owners(s, t),
    ensures
        count_in_branch(s, b) == count_in_branch(t, b),
        count_in_bank(s, b) == count_in_bank(t, b),
    decreases s.len(),
{
    if s.len() > 0 {
        assert(same_owners(s.drop_last(), t.drop_last()));
        lemma_counts_same_owners(s.drop_last(), t.drop_last(), b);
    }
}

pub proof fn lemma_counts_push<T: Owned>(s: Seq<T>, x: T, b: u128)
    ensures
        count_in_branch(s.push(x), b) == count_in_branch(s, b) + if x.row_branch() == b {
            1nat
        } else {
            0nat
        },
        count_in_bank(s.push(x), b) == count_in_bank(s, b) + if x.row_bank() == b {
            1nat
        } else {
            0nat
        },
{
    assert(s.push(x).drop_last() =~= s);
}

/// A new row changes only the counts of its own branch and bank.
pub proof fn lemma_push_counts_elsewhere<T: Owned>(s: Seq<T>, x: T)
    ensures
        forall|b: u128|
            b != x.row_branch() ==> #[trigger] count_in_branch(s.push(x), b) == count_in_branch(
                s,
                b,
            ),
        forall|b: u128|
            b != x.row_bank() ==> #[trigger] count_in_bank(s.push(x), b) == count_in_bank(s, b),
{
    assert forall|b: u128| b != x.row_branch() implies #[trigger] count_in_branch(s.push(x), b)
        == count_in_branch(s, b) by {
        lemma_counts_push(s, x, b);
    }
    assert forall|b: u128| b != x.row_bank() implies #[trigger] count_in_bank(s.push(x), b)
        == count_in_bank(s, b) by {
        lemma_counts_push(s, x, b);
    }
}

pub proof fn lemma_count_bounded<T: Owned>(s: Seq<T>, b: u128)
    ensures
        count_in_branch(s, b) <= s.len(),
        count_in_bank(s, b) <= s.len(),
    decreases s.len(),
{
    if s.len() > 0 {
        lemma_count_bounded(s.drop_last(), b);
    }
}

pub proof fn lemma_money_push(s: Seq<Branch>, x: Branch, b: u128)
    ensures
        branch_money(s.push(x), b) == branch_money(s, b) + if x.bank_id == b {
            x.total_money as int
        } else {
            0
        },
{
    assert(s.push(x).drop_last() =~= s);
}

/// Changing the money of the branch at `i` changes the sum of its bank by the
/// same amount, and leaves the sums of the other banks alone.
pub proof fn lemma_money_update(s: Seq<Branch>, i: int, x: Branch, b: u128)
    requires
        0 <= i < s.len(),
        x.bank_id == s[i].bank_id,
    ensures
        branch_money(s.update(i, x), b) == branch_money(s, b) + if x.bank_id == b {
            x.total_money as int - s[i].total_money as int
        } else {
            0
        },
    decreases s.len(),
{
    if i == s.len() - 1 {
        assert(s.update(i, x).drop_last() =~= s.drop_last());
    } else {
        assert(s.update(i, x).drop_last() =~= s.drop_last().update(i, x));
        lemma_money_update(s.drop_last(), i, x, b);
    }
}

pub proof fn lemma_has_key_push<T: Keyed>(s: Seq<T>, x: T)
    ensures
        forall|k: u128| #[trigger] has_key(s.push(x), k) <==> (has_key(s, k) || x.row_id() == k),
{
    assert forall|k: u128| #[trigger] has_key(s.push(x), k) <==> (has_key(s, k) || x.row_id() == k) by {
        if has_key(s, k) {
            let i = choose|i: int| 0 <= i < s.len() && #[trigger] s[i].row_id() == k;
            assert(s.push(x)[i] == s[i]);
        }
        if x.row_id() == k {
            assert(s.push(x)[s.len() as int] == x);
        }
        if has_key(s.push(x), k) {
            let i = choose|i: int| 0 <= i < s.push(x).len() && #[trigger] s.push(x)[i].row_id() == k;
            if i < s.len() {
                assert(s.push(x)[i] == s[i]);
            }
        }
    }
}

pub proof fn lemma_has_key_update<T: Keyed>(s: Seq<T>, i: int, x: T)
    requires
        0 <= i < s.len(),
        x.row_id() == s[i].row_id(),
    ensures
        forall|k: u128| #[trigger] has_key(s.update(i, x), k) <==> has_key(s, k),
{
    assert forall|k: u128| #[trigger] has_key(s.update(i, x), k) <==> has_key(s, k) by {
        if has_key(s, k) {
            let j = choose|j: int| 0 <= j < s.len() && #[trigger] s[j].row_id() == k;
            assert(s.update(i, x)[j].row_id() == k);
        }
        if has_key(s.update(i, x), k) {
            let j = choose|j: int| 0 <= j < s.len() && #[trigger] s.update(i, x)[j].row_id() == k;
            assert(s[j].row_id() == k);
        }
    }
}

pub proof fn lemma_keys_distinct_push<T: Keyed>(s: Seq<T>, x: T)
    requires
        keys_distinct(s),
        !has_key(s, x.row_id()),
    ensures
        keys_distinct(s.push(x)),
{
    assert forall|i: int, j: int|
        0 <= i < s.push(x).len() && 0 <= j < s.push(x).len() && i != j implies #[trigger] s.push(
        x,
    )[i].row_id() != #[trigger] s.push(x)[j].row_id() by {
        if i < s.len() && j < s.len() {
            assert(s.push(x)[i] == s[i] && s.push(x)[j] == s[j]);
        } else if i < s.len() {
            assert(s.push(x)[i] == s[i]);
        } else if j < s.len() {
            assert(s.push(x)[j] == s[j]);
        }
    }
}

pub proof fn lemma_keys_distinct_update<T: Keyed>(s: Seq<T>, i: int, x: T)
    requires
        keys_distinct(s),
        0 <= i < s.len(),
        x.row_id() == s[i].row_id(),
    ensures
        keys_distinct(s.update(i, x)),
{
    assert forall|a: int, b: int|
        0 <= a < s.len() && 0 <= b < s.len() && a != b implies #[trigger] s.update(i, x)[a].row_id()
        != #[trigger] s.update(i, x)[b].row_id() by {
        assert(s.update(i, x)[a].row_id() == s[a].row_id());
        assert(s.update(i, x)[b].row_id() == s[b].row_id());
    }
}

/// A branch or bank that no row of `s` belongs to has no rows counted.
pub proof fn lemma_counts_unowned<T: Owned>(s: Seq<T>, b: u128)
    ensures
        (forall|i: int| 0 <= i < s.len() ==> (#[trigger] s[i]).row_branch() != b) ==> count_in_branch(
            s,
            b,
        ) == 0,
        (forall|i: int| 0 <= i < s.len() ==> (#[trigger] s[i]).row_bank() != b) ==> count_in_bank(
            s,
            b,
        ) == 0,
    decreases s.len(),
{
    if s.len() > 0 {
        lemma_counts_unowned(s.drop_last(), b);
        assert(forall|i: int| 0 <= i < s.len() - 1 ==> s.drop_last()[i] == s[i]);
    }
}

/// A bank that no branch of `s` belongs to holds no money.
pub proof fn lemma_money_unowned(s: Seq<Branch>, b: u128)
    ensures
        (forall|i: int| 0 <= i < s.len() ==> (#[trigger] s[i]).bank_id != b) ==> branch_money(s, b)
            == 0,
    decreases s.len(),
{
    if s.len() > 0 {
        lemma_money_unowned(s.drop_last(), b);
        assert(forall|i: int| 0 <= i < s.len() - 1 ==> s.drop_last()[i] == s[i]);
    }
}

/// Two tables with the same identifiers, place by place, have the same keys.
pub proof fn lemma_same_keys<T: Keyed>(s: Seq<T>, t: Seq<T>)
    requires
        s.len() == t.len(),
        forall|i: int| 0 <= i < s.len() ==> (#[trigger] s[i]).row_id() == t[i].row_id(),
    ensures
        forall|k: u128| #[trigger] has_key(s, k) == has_key(t, k),
        keys_distinct(s) == keys_distinct(t),
{
    assert forall|k: u128| #[trigger] has_key(s, k) == has_key(t, k) by {
        if has_key(s, k) {
            let i = choose|i: int| 0 <= i < s.len() && #[trigger] s[i].row_id() == k;
            assert(t[i].row_id() == k);
        }
        if has_key(t, k) {
            let i = choose|i: int| 0 <= i < t.len() && #[trigger] t[i].row_id() == k;
            assert(s[i].row_id() == k);
        }
    }
    if keys_distinct(s) {
        assert forall|i: int, j: int|
            0 <= i < t.len() && 0 <= j < t.len() && i != j implies #[trigger] t[i].row_id()
            != #[trigger] t[j].row_id() by {
            assert(s[i].row_id() != s[j].row_id());
        }
    }
    if keys_distinct(t) {
        assert forall|i: int, j: int|
            0 <= i < s.len() && 0 <= j < s.len() && i != j implies #[trigger] s[i].row_id()
            != #[trigger] s[j].row_id() by {
            assert(t[i].row_id() != t[j].row_id());
        }
    }
}

/// The money of a bank depends only on the banks and money of the branches.
pub proof fn lemma_money_same(s: Seq<Branch>, t: Seq<Branch>, b: u128)
    requires
        s.len() == t.len(),
        forall|i: int|
            0 <= i < s.len() ==> (#[trigger] s[i]).bank_id == t[i].bank_id && s[i].total_money
                == t[i].total_money,
    ensures
        branch_money(s, b) == branch_money(t, b),
    decreases s.len(),
{
    if s.len() > 0 {
        lemma_money_same(s.drop_last(), t.drop_last(), b);
    }
}

/// A sum over branches depends only on their banks and the summed amounts.
pub proof fn lemma_sum_same(s: Seq<Branch>, t: Seq<Branch>, b: u128, f: BranchTotal)
    requires
        s.len() == t.len(),
        forall|i: int|
            0 <= i < s.len() ==> (#[trigger] s[i]).bank_id == t[i].bank_id && branch_value(s[i], f)
                == branch_value(t[i], f),
    ensures
        branch_sum(s, b, f) == branch_sum(t, b, f),
    decreases s.len(),
{
    if s.len() > 0 {
        lemma_sum_same(s.drop_last(), t.drop_last(), b, f);
    }
}

/// Where the row with identifier `k` stands in `v`, if any row has it.
pub fn find_key<T: Keyed>(v: &Vec<T>, k: u128) -> (r: Option<usize>)
    ensures
        match r {
            Some(i) => i < v@.len() && v@[i as int].row_id() == k,
            None => !has_key(v@, k),
        },
{
    let mut i: usize = 0;
    while i < v.len()
        invariant
            i <= v@.len(),
            forall|j: int| 0 <= j < i ==> #[trigger] v@[j].row_id() != k,
        decreases v@.len() - i,
    {
        if v[i].id_of() == k {
            return Some(i);
        }
        i = i + 1;
    }
    None
}

/// How many rows of `v` belong to the branch `b`.
pub fn count_branch_rows<T: Owned>(v: &Vec<T>, b: u128) -> (r: u64)
    ensures
        r == count_in_branch(v@, b),
{
    let mut n: u64 = 0;
    let mut i: usize = 0;
    while i < v.len()
        invariant
            i <= v@.len(),
            n == count_in_branch(v@.take(i as int), b),
            n <= i,
        decreases v@.len() - i,
    {
        assert(v@.take(i as int + 1).drop_last() =~= v@.take(i as int));
        if v[i].branch_of() == b {
            n = n + 1;
        }
        i = i + 1;
    }
    assert(v@.take(i as int) =~= v@);
    n
}

/// How many rows of `v` belong to the bank `b`.
pub fn count_bank_rows<T: Owned>(v: &Vec<T>, b: u128) -> (r: u64)
    ensures
        r == count_in_bank(v@, b),
{
    let mut n: u64 = 0;
    let mut i: usize = 0;
    while i < v.len()
        invariant
            i <= v@.len(),
            n == count_in_bank(v@.take(i as int), b),
            n <= i,
        decreases v@.len() - i,
    {
        assert(v@.take(i as int + 1).drop_last() =~= v@.take(i as int));
        if v[i].bank_of() == b {
            n = n + 1;
        }
        i = i + 1;
    }
    assert(v@.take(i as int) =~= v@);
    n
}

/// The sum of the amounts `f` of the branches of bank `b`, when it fits an
/// `i64`.
pub fn sum_branch_field(v: &Vec<Branch>, b: u128, f: BranchTotal) -> (r: Option<i64>)
    ensures
        match r {
            Some(m) => m as int == branch_sum(v@, b, f),
            None => !(i64::MIN <= branch_sum(v@, b, f) <= i64::MAX),
        },
{
    let mut acc: i128 = 0;
    let mut i: usize = 0;
    while i < v.len()
        invariant
            i <= v@.len(),
            acc == branch_sum(v@.take(i as int), b, f),
            -(i as int) * 0x8000_0000_0000_0000 <= acc <= (i as int) * 0x8000_0000_0000_0000,
        decreases v@.len() - i,
    {
        assert(v@.take(i as int + 1).drop_last() =~= v@.take(i as int));
        if v[i].bank_id == b {
            assert(i < 0x1_0000_0000_0000_0000 - 1);
            assert((i as int) * 0x8000_0000_0000_0000 < 0x8000_0000_0000_0000_0000_0000_0000_0000
                - 0x8000_0000_0000_0000) by (nonlinear_arith)
                requires
                    i < 0x1_0000_0000_0000_0000 - 1,
            ;
            let value = match f {
                BranchTotal::Money => v[i].total_money,
                BranchTotal::Debt => v[i].debt_to_collect,
                BranchTotal::Loans => v[i].loans_given,
            };
            acc = acc + value as i128;
        }
        i = i + 1;
    }
    assert(v@.take(i as int) =~= v@);
    if acc < i64::MIN as i128 || acc > i64::MAX as i128 {
        None
    } else {
        Some(acc as i64)
    }
}

/// One of the four row counters a branch and a bank keep.
#[derive(Debug, Clone, Copy, PartialEq, Eq, Structural)]
pub enum Counter {
    Customers,
    Accounts,
    Cards,
    Transactions,
}

/// The counter `c` of branch `br`.
pub open spec fn counter_value(br: Branch, c: Counter) -> u64 {
    match c {
        Counter::Customers => br.total_customers,
        Counter::Accounts => br.total_accounts,
        Counter::Cards => br.total_cards,
        Counter::Transactions => br.total_transactions,
    }
}

/// The sum of the counters `c` of the branches of bank `k` in `brs`.
pub open spec fn branch_counter_sum(brs: Seq<Branch>, k: u128, c: Counter) -> int
    decreases brs.len(),
{
    if brs.len() == 0 {
        0
    } else {
        branch_counter_sum(brs.drop_last(), k, c) + if brs.last().bank_id == k {
            counter_value(brs.last(), c) as int
        } else {
            0
        }
    }
}

/// The sum, over the branches of bank `k` in `brs`, of their rows in `rows`.
pub open spec fn branch_count_sum<T: Owned>(brs: Seq<Branch>, rows: Seq<T>, k: u128) -> int
    decreases brs.len(),
{
    if brs.len() == 0 {
        0
    } else {
        branch_count_sum(brs.drop_last(), rows, k) + if brs.last().bank_id == k {
            count_in_branch(rows, brs.last().id) as int
        } else {
            0
        }
    }
}

/// How many branches of `brs` have identifier `b` and belong to bank `k`.
pub open spec fn branches_named(brs: Seq<Branch>, b: u128, k: u128) -> int
    decreases brs.len(),
{
    if brs.len() == 0 {
        0
    } else {
        branches_named(brs.drop_last(), b, k) + if brs.last().id == b && brs.last().bank_id == k {
            1int
        } else {
            0
        }
    }
}

proof fn lemma_count_sum_push<T: Owned>(brs: Seq<Branch>, rows: Seq<T>, x: T, k: u128)
    ensures
        branch_count_sum(brs, rows.push(x), k) == branch_count_sum(brs, rows, k) + branches_named(
            brs,
            x.row_branch(),
            k,
        ),
    decreases brs.len(),
{
    if brs.len() > 0 {
        lemma_count_sum_push(brs.drop_last(), rows, x, k);
        lemma_counts_push(rows, x, brs.last().id);
    }
}

proof fn lemma_branches_named_none(brs: Seq<Branch>, b: u128, k: u128)
    requires
        forall|i: int| 0 <= i < brs.len() ==> (#[trigger] brs[i]).id != b,
    ensures
        branches_named(brs, b, k) == 0,
    decreases brs.len(),
{
    if brs.len() > 0 {
        assert(forall|i: int| 0 <= i < brs.len() - 1 ==> brs.drop_last()[i] == brs[i]);
        lemma_branches_named_none(brs.drop_last(), b, k);
    }
}

proof fn lemma_branches_named_one(brs: Seq<Branch>, j: int, k: u128)
    requires
        keys_distinct(brs),
        0 <= j < brs.len(),
    ensures
        branches_named(brs, brs[j].id, k) == if brs[j].bank_id == k {
            1int
        } else {
            0
        },
    decreases brs.len(),
{
    let b = brs[j].id;
    let d = brs.drop_last();
    assert(forall|i: int| 0 <= i < brs.len() - 1 ==> d[i] == brs[i]);
    if j == brs.len() - 1 {
        assert forall|i: int| 0 <= i < d.len() implies (#[trigger] d[i]).id != b by {
            assert(brs[i].row_id() != brs[j].row_id());
        }
        lemma_branches_named_none(d, b, k);
    } else {
        assert(keys_distinct(d)) by {
            assert forall|x: int, y: int|
                0 <= x < d.len() && 0 <= y < d.len() && x != y implies #[trigger] d[x].row_id()
                != #[trigger] d[y].row_id() by {
                assert(brs[x].row_id() != brs[y].row_id());
            }
        }
        assert(brs.last().row_id() != brs[j].row_id());
        lemma_branches_named_one(d, j, k);
        assert(d[j] == brs[j]);
    }
}

/// When every row's branch is stored once and belongs to the row's bank, a
/// bank's rows are the rows of its branches.
pub proof fn lemma_bank_count_by_branches<T: Owned>(brs: Seq<Branch>, rows: Seq<T>, k: u128)
    requires
        keys_distinct(brs),
        forall|i: int| 0 <= i < rows.len() ==> has_key(brs, (#[trigger] rows[i]).row_branch()),
        forall|i: int, j: int|
            0 <= i < rows.len() && 0 <= j < brs.len() && (#[trigger] brs[j]).id
                == (#[trigger] rows[i]).row_branch() ==> brs[j].bank_id == rows[i].row_bank(),
    ensures
        count_in_bank(rows, k) as int == branch_count_sum(brs, rows, k),
    decreases rows.len(),
{
    if rows.len() == 0 {
        lemma_count_sum_empty(brs, rows, k);
    } else {
        let r = rows.drop_last();
        let x = rows.last();
        assert(forall|i: int| 0 <= i < r.len() ==> r[i] == rows[i]);
        lemma_bank_count_by_branches(brs, r, k);
        assert(rows =~= r.push(x));
        lemma_count_sum_push(brs, r, x, k);
        assert(has_key(brs, rows[rows.len() - 1].row_branch()));
        let j = choose|j: int| 0 <= j < brs.len() && #[trigger] brs[j].row_id() == x.row_branch();
        lemma_branches_named_one(brs, j, k);
        assert(brs[j].bank_id == rows[rows.len() - 1].row_bank());
    }
}

proof fn lemma_count_sum_empty<T: Owned>(brs: Seq<Branch>, rows: Seq<T>, k: u128)
    requires
        rows.len() == 0,
    ensures
        branch_count_sum(brs, rows, k) == 0,
    decreases brs.len(),
{
    if brs.len() > 0 {
        lemma_count_sum_empty(brs.drop_last(), rows, k);
    }
}

/// When each branch's counter `c` counts its rows, their sum over a bank's
/// branches is the sum of those counts.
pub proof fn lemma_counter_sum_is_count_sum<T: Owned>(
    brs: Seq<Branch>,
    rows: Seq<T>,
    k: u128,
    c: Counter,
)
    requires
        forall|i: int|
            0 <= i < brs.len() ==> counter_value(#[trigger] brs[i], c) as int == count_in_branch(
                rows,
                brs[i].id,
            ),
    ensures
        branch_counter_sum(brs, k, c) == branch_count_sum(brs, rows, k),
    decreases brs.len(),
{
    if brs.len() > 0 {
        assert(forall|i: int| 0 <= i < brs.len() - 1 ==> brs.drop_last()[i] == brs[i]);
        lemma_counter_sum_is_count_sum(brs.drop_last(), rows, k, c);
        assert(brs.last() == brs[brs.len() - 1]);
    }
}

} // verus!
