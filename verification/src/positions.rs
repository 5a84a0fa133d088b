//! The table of outcome-token holdings.
//!
//! A holding is keyed by a user and an outcome. A key that the table does
//! not hold stands for a balance of zero, so holdings come into being with
//! the first purchase and are never removed.

use vstd::prelude::*;
use crate::address::Address;
use crate::lmsr::{OUTCOME_NO, OUTCOME_YES};

verus! {

/// The key of a holding: the text of the user's address and the outcome.
pub type PositionKey = (Seq<char>, u32);

/// One user's holding of one outcome's tokens.
#[derive(Debug)]
struct Position {
    user: Address,
    outcome: u32,
    balance: i128,
}

impl Position {
    spec fn key(self) -> PositionKey {
        (self.user@, self.outcome)
    }
}

/// Whether some entry of `s` has the key `k`.
spec fn has_key(s: Seq<Position>, k: PositionKey) -> bool {
    exists|i: int| 0 <= i < s.len() && #[trigger] s[i].key() == k
}

/// No two entries of `s` share a key.
spec fn distinct_keys(s: Seq<Position>) -> bool {
    forall|i: int, j: int| 0 <= i < j < s.len() ==> #[trigger] s[i].key() != #[trigger] s[j].key()
}

/// The balance that `s` records under the key `k`, zero if there is none.
spec fn balance_in(s: Seq<Position>, k: PositionKey) -> int
    decreases s.len(),
{
    if s.len() == 0 {
        0
    } else if s.last().key() == k {
        s.last().balance as int
    } else {
        balance_in(s.drop_last(), k)
    }
}

/// Every entry of `s` is for YES or NO and holds a nonnegative balance.
spec fn entries_valid(s: Seq<Position>) -> bool {
    forall|i: int|
        0 <= i < s.len() ==> (#[trigger] s[i].outcome == OUTCOME_YES || s[i].outcome == OUTCOME_NO)
            && s[i].balance >= 0
}

proof fn lemma_balance_absent(s: Seq<Position>, k: PositionKey)
    requires
        !has_key(s, k),
    ensures
        balance_in(s, k) == 0,
    decreases s.len(),
{
    if s.len() > 0 {
        assert(s[s.len() - 1].key() != k);
        assert forall|i: int| 0 <= i < s.drop_last().len() implies #[trigger] s.drop_last()[i].key()
            != k by {
            assert(s[i].key() != k);
        }
        lemma_balance_absent(s.drop_last(), k);
    }
}

proof fn lemma_balance_at(s: Seq<Position>, i: int)
    requires
        distinct_keys(s),
        0 <= i < s.len(),
    ensures
        balance_in(s, s[i].key()) == s[i].balance,
    decreases s.len(),
{
    if i < s.len() - 1 {
        assert(s[i].key() != s[s.len() - 1].key());
        assert(s.drop_last()[i] == s[i]);
        assert forall|a: int, b: int| 0 <= a < b < s.drop_last().len() implies #[trigger] s.drop_last()[a].key()
            != #[trigger] s.drop_last()[b].key() by {
            assert(s[a].key() != s[b].key());
        }
        lemma_balance_at(s.drop_last(), i);
    }
}

/// The balances that `s` records, as a map from keys to balances.
spec fn map_of(s: Seq<Position>) -> Map<PositionKey, int> {
    Map::new(|k: PositionKey| has_key(s, k), |k: PositionKey| balance_in(s, k))
}

/// The balance that `balances` gives to `user` for `outcome`: the recorded
/// one, or zero where none is recorded.
pub open spec fn balance_of(balances: Map<PositionKey, int>, user: Seq<char>, outcome: u32) -> int {
    if balances.dom().contains((user, outcome)) {
        balances[(user, outcome)]
    } else {
        0
    }
}

/// What the holding under key `k` adds to the sum held of `outcome`.
pub open spec fn share_of(balances: Map<PositionKey, int>, k: PositionKey, outcome: u32) -> int {
    if balances.dom().contains(k) && k.1 == outcome {
        balances[k]
    } else {
        0
    }
}

/// The sum of all balances of `outcome` in a finite map of balances.
pub open spec fn held_in(balances: Map<PositionKey, int>, outcome: u32) -> int
    decreases balances.dom().len(),
    when balances.dom().finite()
{
    if balances.dom().len() == 0 {
        0
    } else {
        let k = balances.dom().choose();
        held_in(balances.remove(k), outcome) + share_of(balances, k, outcome)
    }
}

/// Balances are valid when finitely many are recorded, each for YES or NO,
/// and none is negative.
pub open spec fn balances_valid(balances: Map<PositionKey, int>) -> bool {
    &&& balances.dom().finite()
    &&& forall|k: PositionKey| #[trigger]
        balances.dom().contains(k) ==> (k.1 == OUTCOME_YES || k.1 == OUTCOME_NO) && balances[k] >= 0
}

/// The sum held is the holding under any one key plus the sum held without
/// that key.
pub proof fn lemma_held_split(balances: Map<PositionKey, int>, k: PositionKey, outcome: u32)
    requires
        balances.dom().finite(),
    ensures
        held_in(balances, outcome) == held_in(balances.remove(k), outcome) + share_of(
            balances,
            k,
            outcome,
        ),
    decreases balances.dom().len(),
{
    if !balances.dom().contains(k) {
        assert(balances.remove(k) =~= balances);
    } else {
        let c = balances.dom().choose();
        if c != k {
            lemma_held_split(balances.remove(c), k, outcome);
            lemma_held_split(balances.remove(k), c, outcome);
            assert(balances.remove(c).remove(k) =~= balances.remove(k).remove(c));
        }
    }
}

/// Recording a balance changes the sum held of its outcome by the
/// difference to the balance recorded before, and no other sum.
pub proof fn lemma_held_insert(
    balances: Map<PositionKey, int>,
    user: Seq<char>,
    outcome: u32,
    balance: int,
    of: u32,
)
    requires
        balances.dom().finite(),
    ensures
        held_in(balances.insert((user, outcome), balance), of) == held_in(balances, of) + if of
            == outcome {
            balance - balance_of(balances, user, outcome)
        } else {
            0
        },
{
    let k = (user, outcome);
    let after = balances.insert(k, balance);
    lemma_held_split(after, k, of);
    lemma_held_split(balances, k, of);
    assert(after.remove(k) =~= balances.remove(k));
}

/// Among valid balances every sum held is nonnegative, and no balance
/// exceeds the sum held of its outcome.
pub proof fn lemma_held_bounds(balances: Map<PositionKey, int>, user: Seq<char>, outcome: u32)
    requires
        balances_valid(balances),
    ensures
        0 <= balance_of(balances, user, outcome) <= held_in(balances, outcome),
    decreases balances.dom().len(),
{
    let k = (user, outcome);
    if balances.dom().len() > 0 {
        let c = if balances.dom().contains(k) { k } else { balances.dom().choose() };
        lemma_held_split(balances, c, outcome);
        assert(balances.remove(c).dom().len() < balances.dom().len());
        lemma_held_bounds(balances.remove(c), user, outcome);
    } else {
        assert(!balances.dom().contains(k));
    }
}

/// With no balance recorded, nothing is held.
pub proof fn lemma_held_empty(outcome: u32)
    ensures
        held_in(Map::<PositionKey, int>::empty(), outcome) == 0,
{
}

proof fn lemma_map_of_valid(s: Seq<Position>)
    requires
        entries_valid(s),
    ensures
        balances_valid(map_of(s)),
    decreases s.len(),
{
    let m = map_of(s);
    if s.len() == 0 {
        assert(m.dom() =~= Set::<PositionKey>::empty());
    } else {
        let rest = s.drop_last();
        assert forall|i: int| 0 <= i < rest.len() implies (#[trigger] rest[i].outcome == OUTCOME_YES
            || rest[i].outcome == OUTCOME_NO) && rest[i].balance >= 0 by {
            assert(rest[i] == s[i]);
            assert(s[i].outcome == OUTCOME_YES || s[i].outcome == OUTCOME_NO);
        }
        lemma_map_of_valid(rest);
        assert(m.dom() =~= map_of(rest).dom().insert(s.last().key())) by {
            assert forall|k: PositionKey| has_key(s, k) == (has_key(rest, k) || k == s.last().key()) by {
                if has_key(rest, k) {
                    let j = choose|j: int| 0 <= j < rest.len() && #[trigger] rest[j].key() == k;
                    assert(s[j].key() == k);
                }
                if k == s.last().key() {
                    assert(s[s.len() - 1].key() == k);
                }
                if has_key(s, k) {
                    let j = choose|j: int| 0 <= j < s.len() && #[trigger] s[j].key() == k;
                    if j < rest.len() {
                        assert(rest[j].key() == k);
                    }
                }
            }
        }
        assert forall|k: PositionKey| #[trigger] m.dom().contains(k) implies (k.1 == OUTCOME_YES || k.1
            == OUTCOME_NO) && m[k] >= 0 by {
            if k == s.last().key() {
                assert(s[s.len() - 1].outcome == OUTCOME_YES || s[s.len() - 1].outcome == OUTCOME_NO);
            } else {
                assert(map_of(rest).dom().contains(k));
            }
        }
    }
}

/// The holdings of all users, keyed by user and outcome.
#[derive(Debug)]
pub struct Positions {
    entries: Vec<Position>,
}

impl View for Positions {
    type V = Map<PositionKey, int>;

    /// The recorded balances. A key outside the domain stands for zero.
    closed spec fn view(&self) -> Map<PositionKey, int> {
        map_of(self.entries@)
    }
}

impl Positions {
    /// The table's invariant: each key occurs once, every outcome is YES or
    /// NO, and no balance is negative.
    pub closed spec fn wf(&self) -> bool {
        &&& distinct_keys(self.entries@)
        &&& entries_valid(self.entries@)
    }

    /// The number of recorded holdings.
    pub closed spec fn spec_len(&self) -> nat {
        self.entries@.len()
    }

    /// The balances of a well-formed table are valid balances.
    pub proof fn lemma_wf(&self)
        requires
            self.wf(),
        ensures
            balances_valid(self@),
    {
        lemma_map_of_valid(self.entries@);
    }

    /// An empty table: every balance is zero.
    pub fn new() -> (t: Positions)
        ensures
            t.wf(),
            t@ == Map::<PositionKey, int>::empty(),
            t.spec_len() == 0,
    {
        let t = Positions { entries: Vec::new() };
        assert(t@ =~= Map::<PositionKey, int>::empty());
        t
    }

    /// The number of recorded holdings.
    pub fn len(&self) -> (n: usize)
        ensures
            n == self.spec_len(),
    {
        self.entries.len()
    }

    /// Finds the entry of `user` for `outcome`.
    fn find(&self, user: &Address, outcome: u32) -> (r: Option<usize>)
        ensures
            match r {
                Some(i) => i < self.entries@.len() && self.entries@[i as int].key() == (
                    user@,
                    outcome,
                ),
                None => !has_key(self.entries@, (user@, outcome)),
            },
    {
        let mut i: usize = 0;
        while i < self.entries.len()
            invariant
                i <= self.entries@.len(),
                forall|j: int| 0 <= j < i ==> #[trigger] self.entries@[j].key() != (user@, outcome),
            decreases self.entries@.len() - i,
        {
            if self.entries[i].outcome == outcome && self.entries[i].user == *user {
                return Some(i);
            }
            i = i + 1;
        }
        None
    }

    /// Whether a holding of `user` for `outcome` is recorded.
    pub fn contains(&self, user: &Address, outcome: u32) -> (b: bool)
        ensures
            b == self@.dom().contains((user@, outcome)),
    {
        self.find(user, outcome).is_some()
    }

    /// The balance of `user` for `outcome`, zero if none is recorded.
    pub fn balance(&self, user: &Address, outcome: u32) -> (b: i128)
        requires
            self.wf(),
        ensures
            b == balance_of(self@, user@, outcome),
    {
        match self.find(user, outcome) {
            Some(i) => {
                proof {
                    lemma_balance_at(self.entries@, i as int);
                }
                self.entries[i].balance
            },
            None => 0,
        }
    }

    /// Records `balance` as the holding of `user` for `outcome`, in place of
    /// whatever was recorded before.
    pub fn set_balance(&mut self, user: &Address, outcome: u32, balance: i128)
        requires
            old(self).wf(),
            outcome == OUTCOME_YES || outcome == OUTCOME_NO,
            balance >= 0,
        ensures
            final(self).wf(),
            final(self)@ == old(self)@.insert((user@, outcome), balance as int),
            final(self).spec_len() == old(self).spec_len() + if old(self)@.dom().contains(
                (user@, outcome),
            ) {
                0int
            } else {
                1int
            },
    {
        let ghost before = self.entries@;
        let ghost k = (user@, outcome);
        let entry = Position { user: user.clone(), outcome, balance };
        match self.find(user, outcome) {
            Some(i) => {
                self.entries.set(i, entry);
                proof {
                    let after = self.entries@;
                    lemma_balance_at(before, i as int);
                    assert forall|a: int, b: int| 0 <= a < b < after.len() implies #[trigger] after[a].key()
                        != #[trigger] after[b].key() by {
                        assert(after[a].key() == before[a].key());
                        assert(after[b].key() == before[b].key());
                    }
                    assert forall|key: PositionKey| has_key(after, key) == has_key(before, key) by {
                        if has_key(before, key) {
                            let j = choose|j: int| 0 <= j < before.len() && #[trigger] before[j].key() == key;
                            assert(after[j].key() == key);
                        }
                        if has_key(after, key) {
                            let j = choose|j: int| 0 <= j < after.len() && #[trigger] after[j].key() == key;
                            assert(before[j].key() == key);
                        }
                    }
                    assert forall|key: PositionKey| has_key(after, key) implies balance_in(after, key)
                        == if key == k {
                        balance as int
                    } else {
                        balance_in(before, key)
                    } by {
                        let j = choose|j: int| 0 <= j < after.len() && #[trigger] after[j].key() == key;
                        lemma_balance_at(after, j);
                        if j != i {
                            assert(before[j].key() == key);
                            lemma_balance_at(before, j);
                        }
                    }
                    assert(has_key(before, k));
                    assert(self@ =~= old(self)@.insert(k, balance as int));
                }
            },
            None => {
                self.entries.push(entry);
                proof {
                    let after = self.entries@;
                    assert(after.drop_last() =~= before);
                    lemma_balance_absent(before, k);
                    assert forall|a: int, b: int| 0 <= a < b < after.len() implies #[trigger] after[a].key()
                        != #[trigger] after[b].key() by {
                        assert(after[a] == before[a]);
                        if b < before.len() {
                            assert(after[b] == before[b]);
                        }
                    }
                    assert forall|key: PositionKey| has_key(after, key) == (has_key(before, key) || key
                        == k) by {
                        if has_key(before, key) {
                            let j = choose|j: int| 0 <= j < before.len() && #[trigger] before[j].key() == key;
                            assert(after[j].key() == key);
                        }
                        if key == k {
                            assert(after[after.len() - 1].key() == key);
                        }
                        if has_key(after, key) {
                            let j = choose|j: int| 0 <= j < after.len() && #[trigger] after[j].key() == key;
                            if j < before.len() {
                                assert(before[j].key() == key);
                            }
                        }
                    }
                    assert(self@ =~= old(self)@.insert(k, balance as int));
                }
            },
        }
    }
}

} // verus!
