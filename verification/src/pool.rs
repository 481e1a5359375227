//! The escrow pool: deposits, finalization and claims.
//!
//! A `Brawl` tracks deposits placed on named options. Depositing adds the
//! attached amount to the option's running total and to the pool-wide total,
//! and records the depositor's *latest* amount (an earlier record on the same
//! option is overwritten, not accumulated, so the running totals may exceed
//! the sum of the recorded per-depositor amounts). The authority finalizes
//! the pool exactly once by naming the winning option; afterwards each
//! depositor recorded on that option may claim a reward once.

use vstd::prelude::*;
use crate::errors::BrawlError;

verus! {

/// One option's ledger: the running total of all accepted deposits on the
/// option, and the most recent amount each depositor placed on it.
pub struct OptionLedger {
    pub total_deposit: u128,
    pub user_deposits: Vec<(String, u128)>,
}

/// No two records are for the same depositor.
pub open spec fn distinct_keys(s: Seq<(String, u128)>) -> bool {
    forall|i: int, j: int|
        0 <= i < j < s.len() ==> (#[trigger] s[i].0@) != (#[trigger] s[j].0@)
}

/// The per-depositor records, read as a map from depositor identity to the
/// recorded amount.
pub open spec fn deposits_map(s: Seq<(String, u128)>) -> Map<Seq<char>, u128>
    decreases s.len(),
{
    if s.len() == 0 {
        Map::empty()
    } else {
        deposits_map(s.drop_last()).insert(s.last().0@, s.last().1)
    }
}

/// A key is in the map exactly when some record carries it.
pub proof fn lemma_deposits_map_contains(s: Seq<(String, u128)>, k: Seq<char>)
    ensures
        deposits_map(s).contains_key(k) <==> exists|i: int|
            0 <= i < s.len() && (#[trigger] s[i].0@) == k,
    decreases s.len(),
{
    if s.len() > 0 {
        lemma_deposits_map_contains(s.drop_last(), k);
        if deposits_map(s).contains_key(k) {
            if s.last().0@ == k {
                assert(s[s.len() - 1].0@ == k);
            } else {
                let i = choose|i: int| 0 <= i < s.drop_last().len() && (#[trigger] s.drop_last()[i].0@) == k;
                assert(s[i].0@ == k);
            }
        }
        if exists|i: int| 0 <= i < s.len() && (#[trigger] s[i].0@) == k {
            let i = choose|i: int| 0 <= i < s.len() && (#[trigger] s[i].0@) == k;
            if i < s.len() - 1 {
                assert(s.drop_last()[i].0@ == k);
            }
        }
    }
}

/// With distinct keys, the record at index `i` is what the map holds for its key.
pub proof fn lemma_deposits_map_value(s: Seq<(String, u128)>, i: int)
    requires
        distinct_keys(s),
        0 <= i < s.len(),
    ensures
        deposits_map(s).contains_key(s[i].0@),
        deposits_map(s)[s[i].0@] == s[i].1,
    decreases s.len(),
{
    if i < s.len() - 1 {
        assert(distinct_keys(s.drop_last())) by {
            assert forall|p: int, q: int|
                0 <= p < q < s.drop_last().len() implies (#[trigger] s.drop_last()[p].0@)
                != (#[trigger] s.drop_last()[q].0@) by {
                assert(s[p].0@ != s[q].0@);
            }
        }
        lemma_deposits_map_value(s.drop_last(), i);
        assert(s.drop_last()[i] == s[i]);
        assert(s.last().0@ != s[i].0@);
    }
}

/// Removing the record at `i` removes exactly its key from the map.
pub proof fn lemma_deposits_map_remove(s: Seq<(String, u128)>, i: int)
    requires
        distinct_keys(s),
        0 <= i < s.len(),
    ensures
        distinct_keys(s.remove(i)),
        deposits_map(s.remove(i)) == deposits_map(s).remove(s[i].0@),
    decreases s.len(),
{
    s.remove_ensures(i);
    assert(distinct_keys(s.remove(i))) by {
        assert forall|p: int, q: int|
            0 <= p < q < s.remove(i).len() implies (#[trigger] s.remove(i)[p].0@)
            != (#[trigger] s.remove(i)[q].0@) by {
            let p0 = if p < i { p } else { p + 1 };
            let q0 = if q < i { q } else { q + 1 };
            assert(s.remove(i)[p] == s[p0]);
            assert(s.remove(i)[q] == s[q0]);
            assert(s[p0].0@ != s[q0].0@);
        }
    }
    if i == s.len() - 1 {
        assert(s.remove(i) =~= s.drop_last());
        lemma_deposits_map_contains(s.drop_last(), s[i].0@);
        assert(!deposits_map(s.drop_last()).contains_key(s[i].0@)) by {
            if exists|j: int| 0 <= j < s.drop_last().len() && (#[trigger] s.drop_last()[j].0@)
                == s[i].0@ {
                let j = choose|j: int|
                    0 <= j < s.drop_last().len() && (#[trigger] s.drop_last()[j].0@) == s[i].0@;
                assert(s[j].0@ == s[i].0@);
            }
        }
        assert(deposits_map(s.remove(i)) =~= deposits_map(s).remove(s[i].0@));
    } else {
        assert(distinct_keys(s.drop_last())) by {
            assert forall|p: int, q: int|
                0 <= p < q < s.drop_last().len() implies (#[trigger] s.drop_last()[p].0@)
                != (#[trigger] s.drop_last()[q].0@) by {
                assert(s[p].0@ != s[q].0@);
            }
        }
        lemma_deposits_map_remove(s.drop_last(), i);
        assert(s.remove(i).drop_last() =~= s.drop_last().remove(i)) by {
            s.drop_last().remove_ensures(i);
        }
        assert(s.remove(i).last() == s.last());
        assert(s.drop_last()[i] == s[i]);
        assert(s.last().0@ != s[i].0@);
        assert(deposits_map(s.remove(i)) =~= deposits_map(s).remove(s[i].0@));
    }
}

/// Appending a record inserts its key into the map.
pub proof fn lemma_deposits_map_push(s: Seq<(String, u128)>, p: (String, u128))
    ensures
        deposits_map(s.push(p)) == deposits_map(s).insert(p.0@, p.1),
{
    assert(s.push(p).drop_last() =~= s);
    assert(s.push(p).last() == p);
}

impl OptionLedger {
    /// The per-depositor records as a map.
    pub open spec fn deps(self) -> Map<Seq<char>, u128> {
        deposits_map(self.user_deposits@)
    }

    /// Well-formed ledger: one record per depositor, and every recorded
    /// amount is positive and no larger than the option's running total.
    pub open spec fn wf(self) -> bool {
        &&& distinct_keys(self.user_deposits@)
        &&& forall|i: int|
            0 <= i < self.user_deposits@.len() ==> 0 < (#[trigger] self.user_deposits@[i]).1
                <= self.total_deposit
    }

    /// In a well-formed ledger every recorded amount is positive and bounded
    /// by the option's running total.
    pub proof fn lemma_wf_deps(self, k: Seq<char>)
        requires
            self.wf(),
            self.deps().contains_key(k),
        ensures
            0 < self.deps()[k] <= self.total_deposit,
    {
        lemma_deposits_map_contains(self.user_deposits@, k);
        let i = choose|i: int|
            0 <= i < self.user_deposits@.len() && (#[trigger] self.user_deposits@[i].0@) == k;
        lemma_deposits_map_value(self.user_deposits@, i);
    }

    /// A fresh, empty ledger.
    pub fn new() -> (r: Self)
        ensures
            r.wf(),
            r.total_deposit == 0,
            r.deps() == Map::<Seq<char>, u128>::empty(),
    {
        OptionLedger { total_deposit: 0, user_deposits: Vec::new() }
    }

    fn find_index(&self, who: &String) -> (r: Option<usize>)
        ensures
            match r {
                Some(i) => i < self.user_deposits@.len() && self.user_deposits@[i as int].0@
                    == who@,
                None => forall|i: int|
                    0 <= i < self.user_deposits@.len() ==> (#[trigger] self.user_deposits@[i].0@)
                        != who@,
            },
    {
        let n = self.user_deposits.len();
        let mut i: usize = 0;
        while i < n
            invariant
                n == self.user_deposits@.len(),
                0 <= i <= n,
                forall|j: int|
                    0 <= j < i ==> (#[trigger] self.user_deposits@[j].0@) != who@,
            decreases n - i,
        {
            if self.user_deposits[i].0 == *who {
                return Some(i);
            }
            i = i + 1;
        }
        None
    }

    /// The amount `who` has recorded on this option, if any.
    pub fn lookup(&self, who: &String) -> (r: Option<u128>)
        requires
            self.wf(),
        ensures
            match r {
                Some(v) => self.deps().contains_key(who@) && v == self.deps()[who@],
                None => !self.deps().contains_key(who@),
            },
    {
        let found = self.find_index(who);
        proof {
            lemma_deposits_map_contains(self.user_deposits@, who@);
        }
        match found {
            Some(i) => {
                proof {
                    lemma_deposits_map_value(self.user_deposits@, i as int);
                }
                Some(self.user_deposits[i].1)
            },
            None => None,
        }
    }

    /// Records a deposit: the running total grows by `amount` and the
    /// depositor's record becomes `amount`, replacing any earlier record.
    pub fn record_deposit(&mut self, depositor: String, amount: u128)
        requires
            old(self).wf(),
            0 < amount,
            old(self).total_deposit + amount <= u128::MAX,
        ensures
            final(self).wf(),
            final(self).total_deposit == old(self).total_deposit + amount,
            final(self).deps() == old(self).deps().insert(depositor@, amount),
    {
        let ghost s0 = self.user_deposits@;
        let found = self.find_index(&depositor);
        match found {
            Some(i) => {
                proof {
                    lemma_deposits_map_remove(s0, i as int);
                }
                self.user_deposits.remove(i);
            },
            None => {},
        }
        let ghost s1 = self.user_deposits@;
        proof {
            lemma_deposits_map_contains(s1, depositor@);
            assert(!deposits_map(s1).contains_key(depositor@)) by {
                if exists|j: int| 0 <= j < s1.len() && (#[trigger] s1[j].0@) == depositor@ {
                    let j = choose|j: int| 0 <= j < s1.len() && (#[trigger] s1[j].0@) == depositor@;
                    if found is Some {
                        let i = found->0 as int;
                        s0.remove_ensures(i);
                        let j0 = if j < i { j } else { j + 1 };
                        assert(s0[j0].0@ == depositor@);
                        assert(s0[i].0@ == depositor@);
                    }
                }
            }
            lemma_deposits_map_push(s1, (depositor, amount));
        }
        self.user_deposits.push((depositor, amount));
        self.total_deposit = self.total_deposit + amount;
        proof {
            let s2 = self.user_deposits@;
            assert(distinct_keys(s2)) by {
                assert forall|p: int, q: int|
                    0 <= p < q < s2.len() implies (#[trigger] s2[p].0@) != (#[trigger] s2[q].0@) by {
                    if q == s2.len() - 1 {
                        assert(s2[p] == s1[p]);
                        assert(s1[p].0@ != s2[q].0@);
                    } else {
                        assert(s2[p] == s1[p]);
                        assert(s2[q] == s1[q]);
                    }
                }
            }
            assert forall|i: int| 0 <= i < s2.len() implies 0 < (#[trigger] s2[i]).1
                <= self.total_deposit by {
                if i < s2.len() - 1 {
                    assert(s2[i] == s1[i]);
                    if found is Some {
                        s0.remove_ensures(found->0 as int);
                    }
                }
            }
            assert(final(self).deps() =~= old(self).deps().insert(depositor@, amount));
        }
    }

    /// Removes the depositor's record; the running total is unchanged.
    pub fn remove_entry(&mut self, who: &String)
        requires
            old(self).wf(),
            old(self).deps().contains_key(who@),
        ensures
            final(self).wf(),
            final(self).total_deposit == old(self).total_deposit,
            final(self).deps() == old(self).deps().remove(who@),
    {
        let ghost s0 = self.user_deposits@;
        let found = self.find_index(who);
        proof {
            lemma_deposits_map_contains(s0, who@);
        }
        match found {
            Some(i) => {
                proof {
                    lemma_deposits_map_remove(s0, i as int);
                    s0.remove_ensures(i as int);
                }
                self.user_deposits.remove(i);
            },
            None => {
                proof {
                    assert(false);
                }
            },
        }
    }
}

/// The sum of the options' running totals.
pub open spec fn sum_totals(s: Seq<OptionLedger>) -> int
    decreases s.len(),
{
    if s.len() == 0 {
        0
    } else {
        sum_totals(s.drop_last()) + s.last().total_deposit
    }
}

pub proof fn lemma_sum_totals_nonneg(s: Seq<OptionLedger>)
    ensures
        sum_totals(s) >= 0,
    decreases s.len(),
{
    if s.len() > 0 {
        lemma_sum_totals_nonneg(s.drop_last());
    }
}

/// Each option's total is at most the sum of all of them.
pub proof fn lemma_sum_totals_ge_element(s: Seq<OptionLedger>, i: int)
    requires
        0 <= i < s.len(),
    ensures
        s[i].total_deposit <= sum_totals(s),
    decreases s.len(),
{
    lemma_sum_totals_nonneg(s.drop_last());
    if i < s.len() - 1 {
        lemma_sum_totals_ge_element(s.drop_last(), i);
    }
}

/// Replacing one ledger changes the sum by the difference of the totals.
pub proof fn lemma_sum_totals_update(s: Seq<OptionLedger>, i: int, l: OptionLedger)
    requires
        0 <= i < s.len(),
    ensures
        sum_totals(s.update(i, l)) == sum_totals(s) - s[i].total_deposit + l.total_deposit,
    decreases s.len(),
{
    if i == s.len() - 1 {
        assert(s.update(i, l).drop_last() =~= s.drop_last());
    } else {
        assert(s.update(i, l).drop_last() =~= s.drop_last().update(i, l));
        lemma_sum_totals_update(s.drop_last(), i, l);
    }
}

pub proof fn lemma_sum_totals_push(s: Seq<OptionLedger>, l: OptionLedger)
    ensures
        sum_totals(s.push(l)) == sum_totals(s) + l.total_deposit,
{
    assert(s.push(l).drop_last() =~= s);
}

/// No two option names are the same.
pub open spec fn distinct_names(s: Seq<String>) -> bool {
    forall|i: int, j: int|
        0 <= i < j < s.len() ==> (#[trigger] s[i]@) != (#[trigger] s[j]@)
}

/// The position of `name` in the option list: the first index carrying it,
/// or `-1` when none does.
pub open spec fn option_index(names: Seq<String>, name: Seq<char>) -> int
    decreases names.len(),
{
    if names.len() == 0 {
        -1
    } else if names[0]@ == name {
        0
    } else {
        let r = option_index(names.drop_first(), name);
        if r == -1 {
            -1
        } else {
            r + 1
        }
    }
}

pub proof fn lemma_option_index_props(names: Seq<String>, name: Seq<char>)
    ensures
        option_index(names, name) == -1 ==> forall|i: int|
            0 <= i < names.len() ==> (#[trigger] names[i]@) != name,
        option_index(names, name) != -1 ==> {
            let r = option_index(names, name);
            &&& 0 <= r < names.len()
            &&& names[r]@ == name
            &&& forall|i: int| 0 <= i < r ==> (#[trigger] names[i]@) != name
        },
    decreases names.len(),
{
    if names.len() > 0 && names[0]@ != name {
        lemma_option_index_props(names.drop_first(), name);
        let rs = option_index(names.drop_first(), name);
        if rs == -1 {
            assert forall|i: int| 0 <= i < names.len() implies (#[trigger] names[i]@)
                != name by {
                if i > 0 {
                    assert(names.drop_first()[i - 1]@ != name);
                }
            }
        } else {
            assert(names[rs + 1] == names.drop_first()[rs]);
            assert forall|i: int| 0 <= i < rs + 1 implies (#[trigger] names[i]@) != name by {
                if i > 0 {
                    assert(names.drop_first()[i - 1]@ != name);
                }
            }
        }
    }
}

/// If `name` stands at `i` and nowhere earlier, its position is `i`.
pub proof fn lemma_option_index_found(names: Seq<String>, name: Seq<char>, i: int)
    requires
        0 <= i < names.len(),
        names[i]@ == name,
        forall|j: int| 0 <= j < i ==> (#[trigger] names[j]@) != name,
    ensures
        option_index(names, name) == i,
{
    lemma_option_index_props(names, name);
    let r = option_index(names, name);
    if r == -1 {
        assert(names[i]@ != name);
    } else {
        if r < i {
            assert(names[r]@ != name);
        }
        if r > i {
            assert(names[i]@ != name);
        }
    }
}

/// One escrow pool.
pub struct Brawl {
    /// The identity permitted to finalize the outcome.
    pub owner: String,
    /// Display title.
    pub brawl_title: String,
    /// Display identifier.
    pub brawl_id: String,
    /// Whether the outcome has been declared; set at most once.
    pub is_finalized: bool,
    /// The winning option; meaningful only once `is_finalized` holds.
    pub correct_option: String,
    /// The running sum of all accepted deposits, over all options.
    pub total_deposits: u128,
    /// The ledgers, one per option: `options[i]` belongs to `option_list[i]`.
    pub options: Vec<OptionLedger>,
    /// The option names, in their display order.
    pub option_list: Vec<String>,
}

impl Brawl {
    /// The pool's invariant: the ledgers and names stand in ordered
    /// one-to-one correspondence, names are unique, every ledger is
    /// well-formed, the pool-wide total is exactly the sum of the options'
    /// totals, and a finalized pool names an existing winning option.
    pub open spec fn wf(self) -> bool {
        &&& self.options@.len() == self.option_list@.len()
        &&& distinct_names(self.option_list@)
        &&& forall|i: int| 0 <= i < self.options@.len() ==> (#[trigger] self.options@[i]).wf()
        &&& self.total_deposits as int == sum_totals(self.options@)
        &&& self.is_finalized ==> option_index(self.option_list@, self.correct_option@) >= 0
    }

    /// Why a deposit of `amount` on `option` would be rejected, if it would.
    pub open spec fn deposit_error(self, option: Seq<char>, amount: u128) -> Option<BrawlError> {
        if self.is_finalized {
            Some(BrawlError::State)
        } else if amount == 0 {
            Some(BrawlError::Value)
        } else if option_index(self.option_list@, option) < 0 {
            Some(BrawlError::NotFound)
        } else {
            None
        }
    }

    /// How an accepted deposit changes the pool.
    pub open spec fn deposit_step(
        pre: Brawl,
        post: Brawl,
        option: Seq<char>,
        depositor: Seq<char>,
        amount: u128,
    ) -> bool {
        let i = option_index(pre.option_list@, option);
        &&& pre.deposit_error(option, amount) is None
        &&& pre.total_deposits + amount <= u128::MAX
        &&& 0 <= i < pre.options@.len()
        &&& post.owner == pre.owner
        &&& post.brawl_title == pre.brawl_title
        &&& post.brawl_id == pre.brawl_id
        &&& post.is_finalized == pre.is_finalized
        &&& post.correct_option == pre.correct_option
        &&& post.option_list == pre.option_list
        &&& post.options@.len() == pre.options@.len()
        &&& forall|j: int|
            0 <= j < pre.options@.len() && j != i ==> post.options@[j] == pre.options@[j]
        &&& post.options@[i].total_deposit == pre.options@[i].total_deposit + amount
        &&& post.options@[i].deps() == pre.options@[i].deps().insert(depositor, amount)
        &&& post.total_deposits == pre.total_deposits + amount
    }

    /// Sets up a pool with the given authority, metadata and options; all
    /// ledgers start empty.
    pub fn init(owner: String, title: String, id: String, options: Vec<String>) -> (r: Self)
        requires
            distinct_names(options@),
        ensures
            r.wf(),
            r.owner == owner,
            r.brawl_title == title,
            r.brawl_id == id,
            r.is_finalized == false,
            r.correct_option@ == Seq::<char>::empty(),
            r.total_deposits == 0,
            r.option_list@ == options@,
            r.options@.len() == options@.len(),
            forall|i: int|
                0 <= i < options@.len() ==> (#[trigger] r.options@[i]).total_deposit == 0
                    && r.options@[i].deps() == Map::<Seq<char>, u128>::empty(),
    {
        let n = options.len();
        let mut ledgers: Vec<OptionLedger> = Vec::new();
        let mut i: usize = 0;
        while i < n
            invariant
                0 <= i <= n,
                ledgers@.len() == i,
                sum_totals(ledgers@) == 0,
                forall|j: int|
                    0 <= j < i ==> (#[trigger] ledgers@[j]).total_deposit == 0 && ledgers@[j].wf()
                        && ledgers@[j].deps() == Map::<Seq<char>, u128>::empty(),
            decreases n - i,
        {
            let l = OptionLedger::new();
            proof {
                lemma_sum_totals_push(ledgers@, l);
            }
            ledgers.push(l);
            i = i + 1;
        }
        Brawl {
            owner,
            brawl_title: title,
            brawl_id: id,
            is_finalized: false,
            correct_option: String::new(),
            total_deposits: 0,
            options: ledgers,
            option_list: options,
        }
    }

    fn find_option(&self, name: &String) -> (r: Option<usize>)
        ensures
            match r {
                Some(i) => option_index(self.option_list@, name@) == i as int && i
                    < self.option_list@.len(),
                None => option_index(self.option_list@, name@) == -1,
            },
    {
        let n = self.option_list.len();
        let mut i: usize = 0;
        while i < n
            invariant
                n == self.option_list@.len(),
                0 <= i <= n,
                forall|j: int| 0 <= j < i ==> (#[trigger] self.option_list@[j]@) != name@,
            decreases n - i,
        {
            if self.option_list[i] == *name {
                proof {
                    lemma_option_index_found(self.option_list@, name@, i as int);
                }
                return Some(i);
            }
            i = i + 1;
        }
        proof {
            lemma_option_index_props(self.option_list@, name@);
            if option_index(self.option_list@, name@) != -1 {
                let r = option_index(self.option_list@, name@);
                assert(self.option_list@[r]@ != name@);
            }
        }
        None
    }

    /// Accepts a deposit of `amount` by `depositor` on `option`, unless the
    /// pool is finalized, the amount is zero, or the option is unknown; a
    /// rejected deposit leaves the pool unchanged.
    pub fn deposit(&mut self, option: String, depositor: String, amount: u128) -> (r: Result<
        (),
        BrawlError,
    >)
        requires
            old(self).wf(),
            old(self).total_deposits + amount <= u128::MAX,
        ensures
            final(self).wf(),
            match r {
                Ok(()) => Self::deposit_step(*old(self), *final(self), option@, depositor@, amount),
                Err(e) => old(self).deposit_error(option@, amount) == Some(e) && *final(self)
                    == *old(self),
            },
    {
        if self.is_finalized {
            return Err(BrawlError::State);
        }
        if amount == 0 {
            return Err(BrawlError::Value);
        }
        let found = self.find_option(&option);
        let i = match found {
            None => {
                return Err(BrawlError::NotFound);
            },
            Some(i) => i,
        };
        let ghost pre = *self;
        proof {
            lemma_sum_totals_ge_element(self.options@, i as int);
        }
        let mut ledger = self.options.remove(i);
        ledger.record_deposit(depositor, amount);
        self.options.insert(i, ledger);
        self.total_deposits = self.total_deposits + amount;
        proof {
            pre.options@.remove_ensures(i as int);
            pre.options@.remove(i as int).insert_ensures(i as int, ledger);
            assert(self.options@ =~= pre.options@.update(i as int, ledger));
            lemma_sum_totals_update(pre.options@, i as int, ledger);
        }
        Ok(())
    }

    /// Why declaring `option` the winner on behalf of `caller` would be
    /// rejected, if it would.
    pub open spec fn finalize_error(self, caller: Seq<char>, option: Seq<char>) -> Option<
        BrawlError,
    > {
        if caller != self.owner@ {
            Some(BrawlError::Authorization)
        } else if self.is_finalized {
            Some(BrawlError::State)
        } else if option_index(self.option_list@, option) < 0 {
            Some(BrawlError::NotFound)
        } else {
            None
        }
    }

    /// Declares `option` the winning option. Only the authority may do so,
    /// only once, and only for an existing option; a rejected call leaves
    /// the pool unchanged.
    pub fn update_correct_option(&mut self, caller: String, option: String) -> (r: Result<
        (),
        BrawlError,
    >)
        requires
            old(self).wf(),
        ensures
            final(self).wf(),
            match r {
                Ok(()) => {
                    &&& old(self).finalize_error(caller@, option@) is None
                    &&& final(self).is_finalized == true
                    &&& final(self).correct_option == option
                    &&& final(self).owner == old(self).owner
                    &&& final(self).brawl_title == old(self).brawl_title
                    &&& final(self).brawl_id == old(self).brawl_id
                    &&& final(self).total_deposits == old(self).total_deposits
                    &&& final(self).options == old(self).options
                    &&& final(self).option_list == old(self).option_list
                },
                Err(e) => old(self).finalize_error(caller@, option@) == Some(e) && *final(self)
                    == *old(self),
            },
    {
        if !(caller == self.owner) {
            return Err(BrawlError::Authorization);
        }
        if self.is_finalized {
            return Err(BrawlError::State);
        }
        let found = self.find_option(&option);
        match found {
            None => Err(BrawlError::NotFound),
            Some(_i) => {
                self.correct_option = option;
                self.is_finalized = true;
                Ok(())
            },
        }
    }

    /// Why a claim by `caller` would be rejected, if it would.
    pub open spec fn claim_error(self, caller: Seq<char>) -> Option<BrawlError> {
        if !self.is_finalized {
            Some(BrawlError::State)
        } else {
            let i = option_index(self.option_list@, self.correct_option@);
            if !self.options@[i].deps().contains_key(caller) {
                Some(BrawlError::NotFound)
            } else {
                None
            }
        }
    }

    /// The reward owed to `caller`: with `d` the caller's recorded deposit
    /// on the winning option, `w` that option's running total and `T` the
    /// pool-wide total, the reward is `(d * 100 / w) * (T / 100)` — two
    /// sequential integer truncations, reproduced exactly as the pool has
    /// always computed them (in particular the reward is 0 whenever
    /// `T < 100`).
    pub open spec fn reward_of(self, caller: Seq<char>) -> int {
        let i = option_index(self.option_list@, self.correct_option@);
        let d = self.options@[i].deps()[caller];
        let w = self.options@[i].total_deposit;
        (d * 100 / w as int) * (self.total_deposits as int / 100)
    }

    /// How a successful claim changes the pool: only the caller's record on
    /// the winning option is removed; every total is left as it was.
    pub open spec fn claim_step(pre: Brawl, post: Brawl, caller: Seq<char>) -> bool {
        let i = option_index(pre.option_list@, pre.correct_option@);
        &&& pre.claim_error(caller) is None
        &&& post.owner == pre.owner
        &&& post.brawl_title == pre.brawl_title
        &&& post.brawl_id == pre.brawl_id
        &&& post.is_finalized == pre.is_finalized
        &&& post.correct_option == pre.correct_option
        &&& post.option_list == pre.option_list
        &&& post.total_deposits == pre.total_deposits
        &&& post.options@.len() == pre.options@.len()
        &&& forall|j: int|
            0 <= j < pre.options@.len() && j != i ==> post.options@[j] == pre.options@[j]
        &&& post.options@[i].total_deposit == pre.options@[i].total_deposit
        &&& post.options@[i].deps() == pre.options@[i].deps().remove(caller)
    }

    /// Pays out `caller`'s share of the pool, provided the pool is finalized
    /// and the caller holds a record on the winning option. The caller's
    /// record is removed, so a repeated claim is rejected; the returned
    /// amount is what the host must transfer to the caller. A rejected
    /// claim leaves the pool unchanged.
    pub fn claim(&mut self, caller: String) -> (r: Result<u128, BrawlError>)
        requires
            old(self).wf(),
            old(self).total_deposits <= u128::MAX / 100,
        ensures
            final(self).wf(),
            match r {
                Ok(amount) => amount == old(self).reward_of(caller@) && Self::claim_step(
                    *old(self),
                    *final(self),
                    caller@,
                ),
                Err(e) => old(self).claim_error(caller@) == Some(e) && *final(self) == *old(self),
            },
    {
        if !self.is_finalized {
            return Err(BrawlError::State);
        }
        let winning = self.correct_option.clone();
        let found = self.find_option(&winning);
        let i = match found {
            None => {
                proof {
                    assert(false);
                }
                return Err(BrawlError::NotFound);
            },
            Some(i) => i,
        };
        let d = match self.options[i].lookup(&caller) {
            None => {
                return Err(BrawlError::NotFound);
            },
            Some(d) => d,
        };
        let ghost pre = *self;
        let w = self.options[i].total_deposit;
        proof {
            pre.options@[i as int].lemma_wf_deps(caller@);
            lemma_sum_totals_ge_element(pre.options@, i as int);
            assert(0 < d <= w <= pre.total_deposits);
            vstd::arithmetic::div_mod::lemma_fundamental_div_mod(u128::MAX as int, 100);
            assert(d * 100 <= u128::MAX);
        }
        let share = d * 100 / w;
        let pot = self.total_deposits / 100;
        proof {
            vstd::arithmetic::mul::lemma_mul_inequality(d as int, w as int, 100);
            vstd::arithmetic::div_mod::lemma_div_is_ordered(
                d as int * 100,
                w as int * 100,
                w as int,
            );
            vstd::arithmetic::div_mod::lemma_div_multiples_vanish(100, w as int);
            assert(share <= 100);
            vstd::arithmetic::mul::lemma_mul_inequality(share as int, 100, pot as int);
            vstd::arithmetic::div_mod::lemma_fundamental_div_mod(pre.total_deposits as int, 100);
            assert(share * pot <= u128::MAX);
        }
        let reward = share * pot;
        let mut ledger = self.options.remove(i);
        ledger.remove_entry(&caller);
        self.options.insert(i, ledger);
        proof {
            pre.options@.remove_ensures(i as int);
            pre.options@.remove(i as int).insert_ensures(i as int, ledger);
            assert(self.options@ =~= pre.options@.update(i as int, ledger));
            lemma_sum_totals_update(pre.options@, i as int, ledger);
        }
        Ok(reward)
    }

    /// The option names, in their display order.
    pub fn get_options(&self) -> (r: Vec<String>)
        ensures
            r@ == self.option_list@,
    {
        let n = self.option_list.len();
        let mut r: Vec<String> = Vec::new();
        let mut i: usize = 0;
        while i < n
            invariant
                n == self.option_list@.len(),
                0 <= i <= n,
                r@ == self.option_list@.subrange(0, i as int),
            decreases n - i,
        {
            r.push(self.option_list[i].clone());
            proof {
                assert(r@ =~= self.option_list@.subrange(0, i + 1));
            }
            i = i + 1;
        }
        proof {
            assert(r@ =~= self.option_list@);
        }
        r
    }

    /// The running sum of all accepted deposits.
    pub fn get_total_deposits(&self) -> (r: u128)
        ensures
            r == self.total_deposits,
    {
        self.total_deposits
    }

    /// The authority permitted to finalize the outcome.
    pub fn get_owner(&self) -> (r: String)
        ensures
            r == self.owner,
    {
        self.owner.clone()
    }

    /// The winning option; the empty string until the pool is finalized.
    pub fn get_correct_option(&self) -> (r: String)
        ensures
            r == self.correct_option,
    {
        self.correct_option.clone()
    }

    /// The pool's identifier.
    pub fn get_brawl_id(&self) -> (r: String)
        ensures
            r == self.brawl_id,
    {
        self.brawl_id.clone()
    }

    /// The pool's title.
    pub fn get_brawl_title(&self) -> (r: String)
        ensures
            r == self.brawl_title,
    {
        self.brawl_title.clone()
    }

    /// Whether the outcome has been declared.
    pub fn get_is_finalized(&self) -> (r: bool)
        ensures
            r == self.is_finalized,
    {
        self.is_finalized
    }
}

/// One accepted deposit, as an event: who placed how much on which option.
pub struct DepositEvent {
    pub option_name: Seq<char>,
    pub depositor: Seq<char>,
    pub amount: u128,
}

/// The sum of the events' amounts.
pub open spec fn sum_amounts(events: Seq<DepositEvent>) -> int
    decreases events.len(),
{
    if events.len() == 0 {
        0
    } else {
        events[0].amount + sum_amounts(events.drop_first())
    }
}

/// Across any sequence of accepted deposits, the pool-wide total grows by
/// exactly the sum of the attached amounts, and it always equals the sum of
/// the options' totals.
pub proof fn lemma_total_tracks_deposits(states: Seq<Brawl>, events: Seq<DepositEvent>)
    requires
        states.len() == events.len() + 1,
        states[0].total_deposits as int == sum_totals(states[0].options@),
        forall|k: int|
            0 <= k < events.len() ==> Brawl::deposit_step(
                states[k],
                states[k + 1],
                (#[trigger] events[k]).option_name,
                events[k].depositor,
                events[k].amount,
            ),
    ensures
        states.last().total_deposits as int == states[0].total_deposits + sum_amounts(events),
        states.last().total_deposits as int == sum_totals(states.last().options@),
    decreases events.len(),
{
    if events.len() == 0 {
        assert(states.last() == states[0]);
    } else {
        let pre = states[0];
        let post = states[1];
        let ev = events[0];
        let i = option_index(pre.option_list@, ev.option_name);
        assert(Brawl::deposit_step(pre, post, ev.option_name, ev.depositor, ev.amount));
        assert(post.options@ =~= pre.options@.update(i, post.options@[i]));
        lemma_sum_totals_update(pre.options@, i, post.options@[i]);
        assert(post.total_deposits as int == sum_totals(post.options@));
        let states1 = states.drop_first();
        let events1 = events.drop_first();
        assert forall|k: int| 0 <= k < events1.len() implies Brawl::deposit_step(
            states1[k],
            states1[k + 1],
            (#[trigger] events1[k]).option_name,
            events1[k].depositor,
            events1[k].amount,
        ) by {
            assert(events1[k] == events[k + 1]);
            assert(states1[k] == states[k + 1]);
            assert(states1[k + 1] == states[k + 2]);
        }
        lemma_total_tracks_deposits(states1, events1);
        assert(states1.last() == states.last());
    }
}

/// Once the pool is finalized, every deposit is rejected (and, by
/// `deposit`'s contract, a rejected deposit leaves the pool unchanged).
pub proof fn lemma_deposit_after_finalized_fails(
    pool: Brawl,
    option: Seq<char>,
    amount: u128,
)
    requires
        pool.is_finalized,
    ensures
        pool.deposit_error(option, amount) == Some(BrawlError::State),
{
}

/// A caller other than the authority can never finalize (and, by
/// `update_correct_option`'s contract, the rejected call changes nothing,
/// so `is_finalized` stays false).
pub proof fn lemma_finalize_by_non_authority_fails(pool: Brawl, caller: Seq<char>, option: Seq<char>)
    requires
        caller != pool.owner@,
    ensures
        pool.finalize_error(caller, option) == Some(BrawlError::Authorization),
{
}

/// Once the pool is finalized, a second finalization is rejected whoever
/// calls and whatever option they name.
pub proof fn lemma_finalize_after_finalized_fails(
    pool: Brawl,
    caller: Seq<char>,
    option: Seq<char>,
)
    requires
        pool.is_finalized,
    ensures
        pool.finalize_error(caller, option) is Some,
{
}

/// A caller with no record on the winning option cannot claim. (No record
/// can ever hold a zero amount: deposits of zero are rejected, so a record
/// is never overwritten to zero.)
pub proof fn lemma_claim_without_deposit_fails(pool: Brawl, caller: Seq<char>)
    requires
        pool.is_finalized,
        !pool.options@[option_index(pool.option_list@, pool.correct_option@)].deps().contains_key(
            caller,
        ),
    ensures
        pool.claim_error(caller) == Some(BrawlError::NotFound),
{
}

/// A successful claim removes the caller's record on the winning option, so
/// an immediately repeated claim by the same caller is rejected.
pub proof fn lemma_no_double_claim(pre: Brawl, post: Brawl, caller: Seq<char>)
    requires
        pre.wf(),
        Brawl::claim_step(pre, post, caller),
    ensures
        post.claim_error(caller) == Some(BrawlError::NotFound),
{
}

} // verus!
