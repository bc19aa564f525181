//! The ledger state machine: one stats row per ticker and one balance row
//! per (owner, ticker) pair, with the `create` / `issue` / `transfer`
//! operations and the `credit` / `debit` balance helpers. Each operation is
//! atomic: it either applies in full or returns an error and leaves the
//! ledger exactly as it was. The contracts speak of two maps, ticker to
//! stats row and (owner, ticker) to balance row.

use vstd::prelude::*;
use vstd::map::*;
use crate::records::{Asset, CurrencyStats};

verus! {

/// Why an operation was rejected. Every error aborts the whole operation;
/// the ledger is left unchanged.
#[derive(Clone, Copy, PartialEq, Eq, Structural, Debug)]
pub enum LedgerError {
    /// The required account has not authorized the call.
    AuthorizationDenied,
    /// The quantity of an `issue` or `transfer` is not positive.
    InvalidAmount,
    /// `create` found a stats row for the ticker already.
    DuplicateSymbol,
    /// `issue` found no stats row for the ticker.
    UnknownSymbol,
    /// A symbol code did not match the stored row bit for bit.
    PrecisionMismatch,
    /// Adding to the supply would overflow the amount field.
    SupplyOverflow,
    /// The new supply would exceed the issue ceiling.
    MaxSupplyExceeded,
    /// A debit found no balance row for (owner, ticker).
    UnknownBalance,
    /// A debit asked for more than the row holds.
    InsufficientBalance,
    /// Adding to a balance would overflow the amount field.
    CreditOverflow,
    /// A credit found no row and was not allowed to create one.
    NoBalanceToCredit,
    /// The dispatcher got an action it does not know.
    UnknownAction,
    /// Action data ended before the parameter record did.
    MalformedInput,
}

/// The first stats row with the given ticker key, scanning front to back.
pub open spec fn stat_lookup(s: Seq<(u64, CurrencyStats)>, key: u64) -> Option<CurrencyStats>
    decreases s.len(),
{
    if s.len() == 0 {
        None
    } else if s[0].0 == key {
        Some(s[0].1)
    } else {
        stat_lookup(s.skip(1), key)
    }
}

/// The first balance row with the given owner and ticker key.
pub open spec fn balance_lookup(s: Seq<(u64, u64, Asset)>, owner: u64, ticker: u64) -> Option<
    Asset,
>
    decreases s.len(),
{
    if s.len() == 0 {
        None
    } else if s[0].0 == owner && s[0].1 == ticker {
        Some(s[0].2)
    } else {
        balance_lookup(s.skip(1), owner, ticker)
    }
}

/// The token ledger: the stats table keyed by ticker (the symbol code
/// without its precision byte) and the balances table keyed by owner and
/// ticker. The host's storage engine owns these rows between calls; a
/// value of this type is the in-memory image one operation works on.
pub struct Ledger {
    stats: Vec<(u64, CurrencyStats)>,
    balances: Vec<(u64, u64, Asset)>,
}

impl Ledger {
    /// No two stats rows share a ticker and no two balance rows share an
    /// (owner, ticker) pair.
    pub closed spec fn wf(&self) -> bool {
        &&& forall|i: int, j: int|
            0 <= i < j < self.stats@.len() ==> self.stats@[i].0 != self.stats@[j].0
        &&& forall|i: int, j: int|
            0 <= i < j < self.balances@.len() ==> !(self.balances@[i].0 == self.balances@[j].0
                && self.balances@[i].1 == self.balances@[j].1)
    }

    /// The stats table as a map from ticker to row.
    pub closed spec fn stats_map(&self) -> Map<u64, CurrencyStats> {
        Map::new(
            |k: u64| stat_lookup(self.stats@, k) is Some,
            |k: u64| stat_lookup(self.stats@, k)->0,
        )
    }

    /// The balances table as a map from (owner, ticker) to row.
    pub closed spec fn balances_map(&self) -> Map<(u64, u64), Asset> {
        Map::new(
            |k: (u64, u64)| balance_lookup(self.balances@, k.0, k.1) is Some,
            |k: (u64, u64)| balance_lookup(self.balances@, k.0, k.1)->0,
        )
    }

    /// An empty ledger: no tickers, no balances.
    pub fn new() -> (r: Ledger)
        ensures
            r.wf(),
            r.stats_map() == Map::<u64, CurrencyStats>::empty(),
            r.balances_map() == Map::<(u64, u64), Asset>::empty(),
    {
        let r = Ledger { stats: Vec::new(), balances: Vec::new() };
        proof {
            assert(r.stats_map() =~= Map::<u64, CurrencyStats>::empty());
            assert(r.balances_map() =~= Map::<(u64, u64), Asset>::empty());
        }
        r
    }
}

/// A lookup misses exactly when no row has the key.
proof fn lemma_stat_lookup_none(s: Seq<(u64, CurrencyStats)>, key: u64)
    ensures
        (stat_lookup(s, key) is None) <==> (forall|i: int| 0 <= i < s.len() ==> s[i].0 != key),
    decreases s.len(),
{
    if s.len() > 0 {
        lemma_stat_lookup_none(s.skip(1), key);
        assert(forall|i: int| 0 <= i < s.skip(1).len() ==> s.skip(1)[i] == s[i + 1]);
        if s[0].0 != key && (stat_lookup(s.skip(1), key) is None) {
            assert(forall|i: int| 0 < i < s.len() ==> s[i] == s.skip(1)[i - 1]);
        }
    }
}

/// With unique keys, a row at any index is what lookup returns.
proof fn lemma_stat_lookup_at(s: Seq<(u64, CurrencyStats)>, i: int)
    requires
        0 <= i < s.len(),
        forall|a: int, b: int| 0 <= a < b < s.len() ==> s[a].0 != s[b].0,
    ensures
        stat_lookup(s, s[i].0) == Some(s[i].1),
    decreases s.len(),
{
    if i > 0 {
        assert(s[0].0 != s[i].0);
        assert(s.skip(1)[i - 1] == s[i]);
        assert(forall|a: int, b: int|
            0 <= a < b < s.skip(1).len() ==> s.skip(1)[a] == s[a + 1] && s.skip(1)[b] == s[b + 1]);
        lemma_stat_lookup_at(s.skip(1), i - 1);
    }
}

/// A lookup misses exactly when no row has the key.
proof fn lemma_balance_lookup_none(s: Seq<(u64, u64, Asset)>, owner: u64, ticker: u64)
    ensures
        (balance_lookup(s, owner, ticker) is None) <==> (forall|i: int|
            0 <= i < s.len() ==> !(s[i].0 == owner && s[i].1 == ticker)),
    decreases s.len(),
{
    if s.len() > 0 {
        lemma_balance_lookup_none(s.skip(1), owner, ticker);
        assert(forall|i: int| 0 <= i < s.skip(1).len() ==> s.skip(1)[i] == s[i + 1]);
        if !(s[0].0 == owner && s[0].1 == ticker) && (balance_lookup(s.skip(1), owner, ticker)
            is None) {
            assert(forall|i: int| 0 < i < s.len() ==> s[i] == s.skip(1)[i - 1]);
        }
    }
}

/// With unique keys, a row at any index is what lookup returns.
proof fn lemma_balance_lookup_at(s: Seq<(u64, u64, Asset)>, i: int)
    requires
        0 <= i < s.len(),
        forall|a: int, b: int|
            0 <= a < b < s.len() ==> !(s[a].0 == s[b].0 && s[a].1 == s[b].1),
    ensures
        balance_lookup(s, s[i].0, s[i].1) == Some(s[i].2),
    decreases s.len(),
{
    if i > 0 {
        assert(!(s[0].0 == s[i].0 && s[0].1 == s[i].1));
        assert(s.skip(1)[i - 1] == s[i]);
        assert(forall|a: int, b: int|
            0 <= a < b < s.skip(1).len() ==> s.skip(1)[a] == s[a + 1] && s.skip(1)[b] == s[b + 1]);
        lemma_balance_lookup_at(s.skip(1), i - 1);
    }
}

impl Ledger {
    /// The index of the stats row for `key`, if one exists.
    fn find_stat_index(&self, key: u64) -> (r: Option<usize>)
        requires
            self.wf(),
        ensures
            match r {
                Some(i) => i < self.stats@.len() && self.stats@[i as int].0 == key
                    && self.stats_map().contains_key(key) && self.stats_map()[key]
                    == self.stats@[i as int].1,
                None => !self.stats_map().contains_key(key),
            },
    {
        let n = self.stats.len();
        let mut i: usize = 0;
        while i < n
            invariant
                self.wf(),
                n == self.stats@.len(),
                i <= n,
                forall|j: int| 0 <= j < i ==> self.stats@[j].0 != key,
            decreases n - i,
        {
            if self.stats[i].0 == key {
                proof {
                    lemma_stat_lookup_at(self.stats@, i as int);
                }
                return Some(i);
            }
            i = i + 1;
        }
        proof {
            lemma_stat_lookup_none(self.stats@, key);
        }
        None
    }

    /// The index of the balance row for (owner, ticker), if one exists.
    fn find_balance_index(&self, owner: u64, ticker: u64) -> (r: Option<usize>)
        requires
            self.wf(),
        ensures
            match r {
                Some(i) => i < self.balances@.len() && self.balances@[i as int].0 == owner
                    && self.balances@[i as int].1 == ticker && self.balances_map().contains_key(
                    (owner, ticker),
                ) && self.balances_map()[(owner, ticker)] == self.balances@[i as int].2,
                None => !self.balances_map().contains_key((owner, ticker)),
            },
    {
        let n = self.balances.len();
        let mut i: usize = 0;
        while i < n
            invariant
                self.wf(),
                n == self.balances@.len(),
                i <= n,
                forall|j: int|
                    0 <= j < i ==> !(self.balances@[j].0 == owner && self.balances@[j].1
                        == ticker),
            decreases n - i,
        {
            if self.balances[i].0 == owner && self.balances[i].1 == ticker {
                proof {
                    lemma_balance_lookup_at(self.balances@, i as int);
                }
                return Some(i);
            }
            i = i + 1;
        }
        proof {
            lemma_balance_lookup_none(self.balances@, owner, ticker);
        }
        None
    }

    /// The stats row for a ticker, if one exists.
    pub fn get_stat(&self, key: u64) -> (r: Option<CurrencyStats>)
        requires
            self.wf(),
        ensures
            match r {
                Some(v) => self.stats_map().contains_key(key) && self.stats_map()[key] == v,
                None => !self.stats_map().contains_key(key),
            },
    {
        match self.find_stat_index(key) {
            Some(i) => Some(self.stats[i].1),
            None => None,
        }
    }

    /// The balance row for (owner, ticker), if one exists.
    pub fn get_balance(&self, owner: u64, ticker: u64) -> (r: Option<Asset>)
        requires
            self.wf(),
        ensures
            match r {
                Some(v) => self.balances_map().contains_key((owner, ticker))
                    && self.balances_map()[(owner, ticker)] == v,
                None => !self.balances_map().contains_key((owner, ticker)),
            },
    {
        match self.find_balance_index(owner, ticker) {
            Some(i) => Some(self.balances[i].2),
            None => None,
        }
    }

    /// Writes the stats row for `key`, replacing any existing one.
    fn upsert_stat(&mut self, key: u64, v: CurrencyStats)
        requires
            old(self).wf(),
        ensures
            final(self).wf(),
            final(self).stats_map() == old(self).stats_map().insert(key, v),
            final(self).balances_map() == old(self).balances_map(),
    {
        let ghost pre = self.stats@;
        match self.find_stat_index(key) {
            Some(i) => {
                self.stats.remove(i);
                self.stats.push((key, v));
                proof {
                    let mid = pre.remove(i as int);
                    lemma_stat_map_after_write(pre, mid, self.stats@, key, v, i as int);
                }
            },
            None => {
                self.stats.push((key, v));
                proof {
                    lemma_stat_lookup_none(pre, key);
                    lemma_stat_map_after_write(pre, pre, self.stats@, key, v, pre.len() as int);
                }
            },
        }
        proof {
            assert(final(self).balances_map() =~= old(self).balances_map());
        }
    }

    /// Writes the balance row for (owner, ticker), replacing any existing
    /// one.
    fn upsert_balance(&mut self, owner: u64, ticker: u64, v: Asset)
        requires
            old(self).wf(),
        ensures
            final(self).wf(),
            final(self).balances_map() == old(self).balances_map().insert((owner, ticker), v),
            final(self).stats_map() == old(self).stats_map(),
    {
        let ghost pre = self.balances@;
        match self.find_balance_index(owner, ticker) {
            Some(i) => {
                self.balances.remove(i);
                self.balances.push((owner, ticker, v));
                proof {
                    let mid = pre.remove(i as int);
                    lemma_balance_map_after_write(
                        pre,
                        mid,
                        self.balances@,
                        owner,
                        ticker,
                        v,
                        i as int,
                    );
                }
            },
            None => {
                self.balances.push((owner, ticker, v));
                proof {
                    lemma_balance_lookup_none(pre, owner, ticker);
                    lemma_balance_map_after_write(
                        pre,
                        pre,
                        self.balances@,
                        owner,
                        ticker,
                        v,
                        pre.len() as int,
                    );
                }
            },
        }
        proof {
            assert(final(self).stats_map() =~= old(self).stats_map());
        }
    }

    /// Deletes the balance row for (owner, ticker).
    fn remove_balance(&mut self, owner: u64, ticker: u64)
        requires
            old(self).wf(),
            old(self).balances_map().contains_key((owner, ticker)),
        ensures
            final(self).wf(),
            final(self).balances_map() == old(self).balances_map().remove((owner, ticker)),
            final(self).stats_map() == old(self).stats_map(),
    {
        let ghost pre = self.balances@;
        match self.find_balance_index(owner, ticker) {
            Some(i) => {
                self.balances.remove(i);
                proof {
                    lemma_balance_map_after_remove(pre, self.balances@, owner, ticker, i as int);
                }
            },
            None => {
                proof {
                    assert(false);
                }
            },
        }
        proof {
            assert(final(self).stats_map() =~= old(self).stats_map());
        }
    }
}

/// After deleting any row with the key (if present at index `i`) and
/// appending `(key, v)`, the stats map is the old map with `key` set to
/// `v`, and the keys stay unique.
proof fn lemma_stat_map_after_write(
    pre: Seq<(u64, CurrencyStats)>,
    mid: Seq<(u64, CurrencyStats)>,
    post: Seq<(u64, CurrencyStats)>,
    key: u64,
    v: CurrencyStats,
    i: int,
)
    requires
        forall|a: int, b: int| 0 <= a < b < pre.len() ==> pre[a].0 != pre[b].0,
        0 <= i <= pre.len(),
        i < pre.len() ==> pre[i].0 == key && mid == pre.remove(i),
        i == pre.len() ==> mid == pre && (forall|j: int| 0 <= j < pre.len() ==> pre[j].0 != key),
        post == mid.push((key, v)),
    ensures
        forall|a: int, b: int| 0 <= a < b < post.len() ==> post[a].0 != post[b].0,
        Map::new(|k: u64| stat_lookup(post, k) is Some, |k: u64| stat_lookup(post, k)->0)
            == Map::new(
            |k: u64| stat_lookup(pre, k) is Some,
            |k: u64| stat_lookup(pre, k)->0,
        ).insert(key, v),
{
    // Every row of `mid` comes from `pre` at a shifted index, so `mid` has
    // unique keys and none of them is `key`.
    assert(forall|j: int|
        0 <= j < mid.len() ==> mid[j] == (if j < i {
            pre[j]
        } else {
            pre[j + 1]
        }));
    assert(forall|a: int, b: int| 0 <= a < b < mid.len() ==> mid[a].0 != mid[b].0);
    assert(forall|j: int| 0 <= j < mid.len() ==> mid[j].0 != key);
    assert(forall|a: int, b: int| 0 <= a < b < post.len() ==> post[a].0 != post[b].0);
    let m_post = Map::new(|k: u64| stat_lookup(post, k) is Some, |k: u64| stat_lookup(post, k)->0);
    let m_pre = Map::new(|k: u64| stat_lookup(pre, k) is Some, |k: u64| stat_lookup(pre, k)->0);
    assert_maps_equal!(m_post, m_pre.insert(key, v), k => {
        if k == key {
            lemma_stat_lookup_at(post, post.len() - 1);
        } else {
            lemma_stat_lookup_none(pre, k);
            lemma_stat_lookup_none(post, k);
            match stat_lookup(pre, k) {
                Some(val) => {
                    let j = choose|j: int| 0 <= j < pre.len() && pre[j].0 == k;
                    lemma_stat_lookup_at(pre, j);
                    if j < i {
                        assert(post[j] == pre[j]);
                        lemma_stat_lookup_at(post, j);
                    } else {
                        assert(j != i);
                        assert(post[j - 1] == pre[j]);
                        lemma_stat_lookup_at(post, j - 1);
                    }
                },
                None => {
                    assert(forall|j: int| 0 <= j < post.len() ==> post[j].0 != k);
                },
            }
        }
    });
}

/// After deleting any row with the key (if present at index `i`) and
/// appending `(owner, ticker, v)`, the balances map is the old map with the
/// key set to `v`, and the keys stay unique.
proof fn lemma_balance_map_after_write(
    pre: Seq<(u64, u64, Asset)>,
    mid: Seq<(u64, u64, Asset)>,
    post: Seq<(u64, u64, Asset)>,
    owner: u64,
    ticker: u64,
    v: Asset,
    i: int,
)
    requires
        forall|a: int, b: int|
            0 <= a < b < pre.len() ==> !(pre[a].0 == pre[b].0 && pre[a].1 == pre[b].1),
        0 <= i <= pre.len(),
        i < pre.len() ==> pre[i].0 == owner && pre[i].1 == ticker && mid == pre.remove(i),
        i == pre.len() ==> mid == pre && (forall|j: int|
            0 <= j < pre.len() ==> !(pre[j].0 == owner && pre[j].1 == ticker)),
        post == mid.push((owner, ticker, v)),
    ensures
        forall|a: int, b: int|
            0 <= a < b < post.len() ==> !(post[a].0 == post[b].0 && post[a].1 == post[b].1),
        Map::new(
            |k: (u64, u64)| balance_lookup(post, k.0, k.1) is Some,
            |k: (u64, u64)| balance_lookup(post, k.0, k.1)->0,
        ) == Map::new(
            |k: (u64, u64)| balance_lookup(pre, k.0, k.1) is Some,
            |k: (u64, u64)| balance_lookup(pre, k.0, k.1)->0,
        ).insert((owner, ticker), v),
{
    assert(forall|j: int|
        0 <= j < mid.len() ==> mid[j] == (if j < i {
            pre[j]
        } else {
            pre[j + 1]
        }));
    assert(forall|a: int, b: int|
        0 <= a < b < mid.len() ==> !(mid[a].0 == mid[b].0 && mid[a].1 == mid[b].1));
    assert(forall|j: int| 0 <= j < mid.len() ==> !(mid[j].0 == owner && mid[j].1 == ticker));
    assert(forall|a: int, b: int|
        0 <= a < b < post.len() ==> !(post[a].0 == post[b].0 && post[a].1 == post[b].1));
    let m_post = Map::new(
        |k: (u64, u64)| balance_lookup(post, k.0, k.1) is Some,
        |k: (u64, u64)| balance_lookup(post, k.0, k.1)->0,
    );
    let m_pre = Map::new(
        |k: (u64, u64)| balance_lookup(pre, k.0, k.1) is Some,
        |k: (u64, u64)| balance_lookup(pre, k.0, k.1)->0,
    );
    assert_maps_equal!(m_post, m_pre.insert((owner, ticker), v), k => {
        if k.0 == owner && k.1 == ticker {
            lemma_balance_lookup_at(post, post.len() - 1);
            assert(k == (owner, ticker));
        } else {
            lemma_balance_lookup_none(pre, k.0, k.1);
            lemma_balance_lookup_none(post, k.0, k.1);
            match balance_lookup(pre, k.0, k.1) {
                Some(val) => {
                    let j = choose|j: int|
                        0 <= j < pre.len() && pre[j].0 == k.0 && pre[j].1 == k.1;
                    lemma_balance_lookup_at(pre, j);
                    if j < i {
                        assert(post[j] == pre[j]);
                        lemma_balance_lookup_at(post, j);
                    } else {
                        assert(j != i);
                        assert(post[j - 1] == pre[j]);
                        lemma_balance_lookup_at(post, j - 1);
                    }
                },
                None => {
                    assert(forall|j: int|
                        0 <= j < post.len() ==> !(post[j].0 == k.0 && post[j].1 == k.1));
                },
            }
        }
    });
}

/// After deleting the row at index `i`, the balances map is the old map
/// without that key, and the keys stay unique.
proof fn lemma_balance_map_after_remove(
    pre: Seq<(u64, u64, Asset)>,
    post: Seq<(u64, u64, Asset)>,
    owner: u64,
    ticker: u64,
    i: int,
)
    requires
        forall|a: int, b: int|
            0 <= a < b < pre.len() ==> !(pre[a].0 == pre[b].0 && pre[a].1 == pre[b].1),
        0 <= i < pre.len(),
        pre[i].0 == owner,
        pre[i].1 == ticker,
        post == pre.remove(i),
    ensures
        forall|a: int, b: int|
            0 <= a < b < post.len() ==> !(post[a].0 == post[b].0 && post[a].1 == post[b].1),
        Map::new(
            |k: (u64, u64)| balance_lookup(post, k.0, k.1) is Some,
            |k: (u64, u64)| balance_lookup(post, k.0, k.1)->0,
        ) == Map::new(
            |k: (u64, u64)| balance_lookup(pre, k.0, k.1) is Some,
            |k: (u64, u64)| balance_lookup(pre, k.0, k.1)->0,
        ).remove((owner, ticker)),
{
    assert(forall|j: int|
        0 <= j < post.len() ==> post[j] == (if j < i {
            pre[j]
        } else {
            pre[j + 1]
        }));
    assert(forall|a: int, b: int|
        0 <= a < b < post.len() ==> !(post[a].0 == post[b].0 && post[a].1 == post[b].1));
    assert(forall|j: int| 0 <= j < post.len() ==> !(post[j].0 == owner && post[j].1 == ticker));
    let m_post = Map::new(
        |k: (u64, u64)| balance_lookup(post, k.0, k.1) is Some,
        |k: (u64, u64)| balance_lookup(post, k.0, k.1)->0,
    );
    let m_pre = Map::new(
        |k: (u64, u64)| balance_lookup(pre, k.0, k.1) is Some,
        |k: (u64, u64)| balance_lookup(pre, k.0, k.1)->0,
    );
    assert_maps_equal!(m_post, m_pre.remove((owner, ticker)), k => {
        if k.0 == owner && k.1 == ticker {
            lemma_balance_lookup_none(post, k.0, k.1);
            assert(k == (owner, ticker));
        } else {
            lemma_balance_lookup_none(pre, k.0, k.1);
            lemma_balance_lookup_none(post, k.0, k.1);
            match balance_lookup(pre, k.0, k.1) {
                Some(val) => {
                    let j = choose|j: int|
                        0 <= j < pre.len() && pre[j].0 == k.0 && pre[j].1 == k.1;
                    lemma_balance_lookup_at(pre, j);
                    if j < i {
                        assert(post[j] == pre[j]);
                        lemma_balance_lookup_at(post, j);
                    } else {
                        assert(j != i);
                        assert(post[j - 1] == pre[j]);
                        lemma_balance_lookup_at(post, j - 1);
                    }
                },
                None => {
                    assert(forall|j: int|
                        0 <= j < post.len() ==> !(post[j].0 == k.0 && post[j].1 == k.1));
                },
            }
        }
    });
}

/// What `create` does: require the issuer's authorization, refuse a ticker
/// that already has a stats row, and otherwise persist a new row with zero
/// supply, the given ceiling and the given issuer.
pub open spec fn spec_create(
    stats: Map<u64, CurrencyStats>,
    auth: Seq<u64>,
    issuer: u64,
    max_supply: Asset,
) -> Result<Map<u64, CurrencyStats>, LedgerError> {
    let key = max_supply.symbol_code >> 8;
    if !auth.contains(issuer) {
        Err(LedgerError::AuthorizationDenied)
    } else if stats.contains_key(key) {
        Err(LedgerError::DuplicateSymbol)
    } else {
        Ok(
            stats.insert(
                key,
                CurrencyStats {
                    supply: Asset { amount: 0, symbol_code: max_supply.symbol_code },
                    max_supply: max_supply,
                    issuer: issuer,
                },
            ),
        )
    }
}

/// What `credit` does: create the row when none exists (if allowed), else
/// require a bit-identical symbol code and add with an overflow check.
pub open spec fn spec_credit(
    balances: Map<(u64, u64), Asset>,
    owner: u64,
    asset: Asset,
    allow_create: bool,
) -> Result<Map<(u64, u64), Asset>, LedgerError> {
    let k = (owner, asset.symbol_code >> 8);
    if !balances.contains_key(k) {
        if allow_create {
            Ok(balances.insert(k, asset))
        } else {
            Err(LedgerError::NoBalanceToCredit)
        }
    } else {
        let orig = balances[k];
        if orig.symbol_code != asset.symbol_code {
            Err(LedgerError::PrecisionMismatch)
        } else if asset.amount < 0 || orig.amount + asset.amount > i64::MAX {
            Err(LedgerError::CreditOverflow)
        } else {
            Ok(
                balances.insert(
                    k,
                    Asset {
                        amount: (orig.amount + asset.amount) as i64,
                        symbol_code: orig.symbol_code,
                    },
                ),
            )
        }
    }
}

/// What `debit` does: require an existing row with a bit-identical symbol
/// code and enough balance; a debit that zeroes the row deletes it.
pub open spec fn spec_debit(
    balances: Map<(u64, u64), Asset>,
    owner: u64,
    asset: Asset,
) -> Result<Map<(u64, u64), Asset>, LedgerError> {
    let k = (owner, asset.symbol_code >> 8);
    if !balances.contains_key(k) {
        Err(LedgerError::UnknownBalance)
    } else {
        let orig = balances[k];
        if orig.symbol_code != asset.symbol_code {
            Err(LedgerError::PrecisionMismatch)
        } else if orig.amount < asset.amount {
            Err(LedgerError::InsufficientBalance)
        } else if orig.amount == asset.amount {
            Ok(balances.remove(k))
        } else {
            Ok(
                balances.insert(
                    k,
                    Asset {
                        amount: (orig.amount - asset.amount) as i64,
                        symbol_code: orig.symbol_code,
                    },
                ),
            )
        }
    }
}

/// What `issue` does: a positive quantity, a known ticker, a matching
/// symbol code, an overflow-free new supply within the ceiling and the
/// issuer's authorization, then the supply accrues and the recipient is
/// credited (creating the row if needed).
pub open spec fn spec_issue(
    stats: Map<u64, CurrencyStats>,
    balances: Map<(u64, u64), Asset>,
    auth: Seq<u64>,
    to: u64,
    quantity: Asset,
) -> Result<(Map<u64, CurrencyStats>, Map<(u64, u64), Asset>), LedgerError> {
    let key = quantity.symbol_code >> 8;
    if quantity.amount <= 0 {
        Err(LedgerError::InvalidAmount)
    } else if !stats.contains_key(key) {
        Err(LedgerError::UnknownSymbol)
    } else {
        let st = stats[key];
        if st.supply.symbol_code != quantity.symbol_code {
            Err(LedgerError::PrecisionMismatch)
        } else if st.supply.amount + quantity.amount > i64::MAX {
            Err(LedgerError::SupplyOverflow)
        } else if st.supply.amount + quantity.amount > st.max_supply.amount {
            Err(LedgerError::MaxSupplyExceeded)
        } else if !auth.contains(st.issuer) {
            Err(LedgerError::AuthorizationDenied)
        } else {
            match spec_credit(balances, to, quantity, true) {
                Ok(b2) => Ok(
                    (
                        stats.insert(
                            key,
                            CurrencyStats {
                                supply: Asset {
                                    amount: (st.supply.amount + quantity.amount) as i64,
                                    symbol_code: st.supply.symbol_code,
                                },
                                max_supply: st.max_supply,
                                issuer: st.issuer,
                            },
                        ),
                        b2,
                    ),
                ),
                Err(e) => Err(e),
            }
        }
    }
}

/// What `transfer` does: the sender's authorization, a positive quantity,
/// then a debit of the sender followed by a credit of the recipient
/// (creating the row if needed). Self-transfer nets through both steps.
pub open spec fn spec_transfer(
    balances: Map<(u64, u64), Asset>,
    auth: Seq<u64>,
    from: u64,
    to: u64,
    quantity: Asset,
) -> Result<Map<(u64, u64), Asset>, LedgerError> {
    if !auth.contains(from) {
        Err(LedgerError::AuthorizationDenied)
    } else if quantity.amount <= 0 {
        Err(LedgerError::InvalidAmount)
    } else {
        match spec_debit(balances, from, quantity) {
            Err(e) => Err(e),
            Ok(b1) => spec_credit(b1, to, quantity, true),
        }
    }
}

/// Whether an account is among those that authorized the call.
fn contains_name(names: &Vec<u64>, name: u64) -> (b: bool)
    ensures
        b == names@.contains(name),
{
    let n = names.len();
    let mut i: usize = 0;
    while i < n
        invariant
            n == names@.len(),
            i <= n,
            forall|j: int| 0 <= j < i ==> names@[j] != name,
        decreases n - i,
    {
        if names[i] == name {
            return true;
        }
        i = i + 1;
    }
    false
}

impl Ledger {
    /// Creates a token class: a new stats row for the ticker of
    /// `max_supply`, with zero supply and `issuer` as the account allowed
    /// to issue. Atomic: on any error the ledger is unchanged.
    pub fn create(&mut self, auth: &Vec<u64>, issuer: u64, max_supply: Asset) -> (r: Result<
        (),
        LedgerError,
    >)
        requires
            old(self).wf(),
        ensures
            final(self).wf(),
            match spec_create(old(self).stats_map(), auth@, issuer, max_supply) {
                Ok(m) => r == Ok::<(), LedgerError>(()) && final(self).stats_map() == m && final(self).balances_map() == old(self).balances_map(),
                Err(e) => r == Err::<(), LedgerError>(e) && final(self).stats_map() == old(self).stats_map() && final(self).balances_map() == old(self).balances_map(),
            },
    {
        if !contains_name(auth, issuer) {
            return Err(LedgerError::AuthorizationDenied);
        }
        let key = max_supply.symbol_code >> 8;
        match self.find_stat_index(key) {
            Some(_) => Err(LedgerError::DuplicateSymbol),
            None => {
                let stat = CurrencyStats {
                    supply: Asset { amount: 0, symbol_code: max_supply.symbol_code },
                    max_supply,
                    issuer,
                };
                self.upsert_stat(key, stat);
                Ok(())
            },
        }
    }

    /// Adds `asset` to the (owner, ticker) row, creating it when permitted.
    /// The resource payer only matters to the host's storage billing.
    /// Atomic: on any error the ledger is unchanged.
    pub fn credit(&mut self, owner: u64, asset: Asset, _ram_payer: u64, allow_create: bool) -> (r:
        Result<(), LedgerError>)
        requires
            old(self).wf(),
        ensures
            final(self).wf(),
            final(self).stats_map() == old(self).stats_map(),
            match spec_credit(old(self).balances_map(), owner, asset, allow_create) {
                Ok(m) => r == Ok::<(), LedgerError>(()) && final(self).balances_map() == m,
                Err(e) => r == Err::<(), LedgerError>(e) && final(self).balances_map() == old(self).balances_map(),
            },
    {
        let ticker = asset.symbol_code >> 8;
        match self.find_balance_index(owner, ticker) {
            None => {
                if allow_create {
                    self.upsert_balance(owner, ticker, asset);
                    Ok(())
                } else {
                    Err(LedgerError::NoBalanceToCredit)
                }
            },
            Some(i) => {
                let orig = self.balances[i].2;
                if orig.symbol_code != asset.symbol_code {
                    Err(LedgerError::PrecisionMismatch)
                } else if asset.amount < 0 || orig.amount > i64::MAX - asset.amount {
                    Err(LedgerError::CreditOverflow)
                } else {
                    let updated = Asset {
                        amount: orig.amount + asset.amount,
                        symbol_code: orig.symbol_code,
                    };
                    self.upsert_balance(owner, ticker, updated);
                    Ok(())
                }
            },
        }
    }

    /// Subtracts `asset` from the (owner, ticker) row; a debit that zeroes
    /// the row deletes it. Atomic: on any error the ledger is unchanged.
    pub fn debit(&mut self, owner: u64, asset: Asset) -> (r: Result<(), LedgerError>)
        requires
            old(self).wf(),
            asset.amount >= 0,
        ensures
            final(self).wf(),
            final(self).stats_map() == old(self).stats_map(),
            match spec_debit(old(self).balances_map(), owner, asset) {
                Ok(m) => r == Ok::<(), LedgerError>(()) && final(self).balances_map() == m,
                Err(e) => r == Err::<(), LedgerError>(e) && final(self).balances_map() == old(self).balances_map(),
            },
    {
        let ticker = asset.symbol_code >> 8;
        match self.find_balance_index(owner, ticker) {
            None => Err(LedgerError::UnknownBalance),
            Some(i) => {
                let orig = self.balances[i].2;
                if orig.symbol_code != asset.symbol_code {
                    Err(LedgerError::PrecisionMismatch)
                } else if orig.amount < asset.amount {
                    Err(LedgerError::InsufficientBalance)
                } else if orig.amount == asset.amount {
                    self.remove_balance(owner, ticker);
                    Ok(())
                } else {
                    let updated = Asset {
                        amount: orig.amount - asset.amount,
                        symbol_code: orig.symbol_code,
                    };
                    self.upsert_balance(owner, ticker, updated);
                    Ok(())
                }
            },
        }
    }

    /// Credits a balance in an issuance or transfer context, which always
    /// permits creating the row.
    pub fn _add_balance(&mut self, owner: u64, asset: Asset, ram_payer: u64) -> (r: Result<
        (),
        LedgerError,
    >)
        requires
            old(self).wf(),
        ensures
            final(self).wf(),
            final(self).stats_map() == old(self).stats_map(),
            match spec_credit(old(self).balances_map(), owner, asset, true) {
                Ok(m) => r == Ok::<(), LedgerError>(()) && final(self).balances_map() == m,
                Err(e) => r == Err::<(), LedgerError>(e) && final(self).balances_map() == old(self).balances_map(),
            },
    {
        self.credit(owner, asset, ram_payer, true)
    }

    /// Debits a balance. The resource payer is accepted for symmetry with
    /// the credit path; a debit never creates a row.
    pub fn _sub_balance(&mut self, owner: u64, asset: Asset, _ram_payer: u64) -> (r: Result<
        (),
        LedgerError,
    >)
        requires
            old(self).wf(),
            asset.amount >= 0,
        ensures
            final(self).wf(),
            final(self).stats_map() == old(self).stats_map(),
            match spec_debit(old(self).balances_map(), owner, asset) {
                Ok(m) => r == Ok::<(), LedgerError>(()) && final(self).balances_map() == m,
                Err(e) => r == Err::<(), LedgerError>(e) && final(self).balances_map() == old(self).balances_map(),
            },
    {
        self.debit(owner, asset)
    }

    /// Issues `quantity` to `to`: the supply accrues within the ceiling
    /// and the recipient is credited, with the issuer paying for any new
    /// row. Atomic: on any error the ledger is unchanged.
    pub fn issue(&mut self, auth: &Vec<u64>, to: u64, quantity: Asset) -> (r: Result<
        (),
        LedgerError,
    >)
        requires
            old(self).wf(),
        ensures
            final(self).wf(),
            match spec_issue(
                old(self).stats_map(),
                old(self).balances_map(),
                auth@,
                to,
                quantity,
            ) {
                Ok(p) => r == Ok::<(), LedgerError>(()) && final(self).stats_map() == p.0 && final(self).balances_map() == p.1,
                Err(e) => r == Err::<(), LedgerError>(e) && final(self).stats_map() == old(self).stats_map() && final(self).balances_map() == old(self).balances_map(),
            },
    {
        if quantity.amount <= 0 {
            return Err(LedgerError::InvalidAmount);
        }
        let key = quantity.symbol_code >> 8;
        let st = match self.get_stat(key) {
            None => {
                return Err(LedgerError::UnknownSymbol);
            },
            Some(st) => st,
        };
        if st.supply.symbol_code != quantity.symbol_code {
            return Err(LedgerError::PrecisionMismatch);
        }
        if st.supply.amount > i64::MAX - quantity.amount {
            return Err(LedgerError::SupplyOverflow);
        }
        let new_supply = st.supply.amount + quantity.amount;
        if new_supply > st.max_supply.amount {
            return Err(LedgerError::MaxSupplyExceeded);
        }
        if !contains_name(auth, st.issuer) {
            return Err(LedgerError::AuthorizationDenied);
        }
        match self.credit(to, quantity, st.issuer, true) {
            Err(e) => {
                return Err(e);
            },
            Ok(()) => {},
        }
        self.upsert_stat(
            key,
            CurrencyStats {
                supply: Asset { amount: new_supply, symbol_code: st.supply.symbol_code },
                max_supply: st.max_supply,
                issuer: st.issuer,
            },
        );
        Ok(())
    }

    /// Transfers `quantity` from `from` to `to`: a debit of the sender,
    /// then a credit of the recipient with the sender paying for any new
    /// row. Atomic: on any error the ledger is unchanged.
    pub fn transfer(&mut self, auth: &Vec<u64>, from: u64, to: u64, quantity: Asset) -> (r: Result<
        (),
        LedgerError,
    >)
        requires
            old(self).wf(),
        ensures
            final(self).wf(),
            final(self).stats_map() == old(self).stats_map(),
            match spec_transfer(old(self).balances_map(), auth@, from, to, quantity) {
                Ok(m) => r == Ok::<(), LedgerError>(()) && final(self).balances_map() == m,
                Err(e) => r == Err::<(), LedgerError>(e) && final(self).balances_map() == old(self).balances_map(),
            },
    {
        if !contains_name(auth, from) {
            return Err(LedgerError::AuthorizationDenied);
        }
        if quantity.amount <= 0 {
            return Err(LedgerError::InvalidAmount);
        }
        let ghost b0 = self.balances_map();
        let ticker = quantity.symbol_code >> 8;
        let orig_from = self.get_balance(from, ticker);
        match self.debit(from, quantity) {
            Err(e) => {
                return Err(e);
            },
            Ok(()) => {},
        }
        match self.credit(to, quantity, from, true) {
            Ok(()) => Ok(()),
            Err(e) => {
                // The debit already went through; put the sender's row back
                // so the rejected transfer leaves the ledger unchanged.
                match orig_from {
                    Some(a) => {
                        self.upsert_balance(from, ticker, a);
                        proof {
                            assert(self.balances_map() =~= b0);
                        }
                    },
                    None => {
                        proof {
                            assert(false);
                        }
                    },
                }
                Err(e)
            },
        }
    }
}

/// Creating a ticker and then creating it again fails the second call with
/// `DuplicateSymbol`, whoever asks and whatever ceiling the second call
/// names for the same ticker.
pub proof fn lemma_create_duplicate_symbol(
    stats: Map<u64, CurrencyStats>,
    auth1: Seq<u64>,
    auth2: Seq<u64>,
    issuer1: u64,
    max1: Asset,
    issuer2: u64,
    max2: Asset,
)
    requires
        spec_create(stats, auth1, issuer1, max1) is Ok,
        auth2.contains(issuer2),
        max2.symbol_code >> 8 == max1.symbol_code >> 8,
    ensures
        spec_create(spec_create(stats, auth1, issuer1, max1)->Ok_0, auth2, issuer2, max2)
            == Err::<Map<u64, CurrencyStats>, LedgerError>(LedgerError::DuplicateSymbol),
{
}

/// A debit that zeroes a balance deletes the row, and a later credit of
/// the same (owner, ticker) creates a fresh row holding exactly the
/// credited asset rather than any stale state.
pub proof fn lemma_debit_zero_then_credit(
    balances: Map<(u64, u64), Asset>,
    owner: u64,
    a: Asset,
    c: Asset,
)
    requires
        spec_debit(balances, owner, a) is Ok,
        balances[(owner, a.symbol_code >> 8)].amount == a.amount,
        c.symbol_code >> 8 == a.symbol_code >> 8,
    ensures
        ({
            let b1 = spec_debit(balances, owner, a)->Ok_0;
            &&& !b1.contains_key((owner, a.symbol_code >> 8))
            &&& spec_credit(b1, owner, c, true) == Ok::<Map<(u64, u64), Asset>, LedgerError>(
                b1.insert((owner, c.symbol_code >> 8), c),
            )
            &&& spec_credit(b1, owner, c, true)->Ok_0[(owner, c.symbol_code >> 8)] == c
        }),
{
}

/// Creating a token, issuing `q` to a first owner with no prior row, and
/// transferring `q` on to a second owner with no prior row succeeds and
/// leaves the second owner holding exactly `q` while the first owner's row
/// is gone.
pub proof fn lemma_create_issue_transfer_round(
    stats: Map<u64, CurrencyStats>,
    balances: Map<(u64, u64), Asset>,
    auth: Seq<u64>,
    issuer: u64,
    max_supply: Asset,
    first: u64,
    second: u64,
    q: Asset,
)
    requires
        first != second,
        auth.contains(first),
        q.symbol_code == max_supply.symbol_code,
        !balances.contains_key((first, q.symbol_code >> 8)),
        !balances.contains_key((second, q.symbol_code >> 8)),
        spec_create(stats, auth, issuer, max_supply) is Ok,
        spec_issue(
            spec_create(stats, auth, issuer, max_supply)->Ok_0,
            balances,
            auth,
            first,
            q,
        ) is Ok,
    ensures
        ({
            let s1 = spec_create(stats, auth, issuer, max_supply)->Ok_0;
            let p = spec_issue(s1, balances, auth, first, q)->Ok_0;
            let t = spec_transfer(p.1, auth, first, second, q);
            &&& t is Ok
            &&& t->Ok_0.contains_key((second, q.symbol_code >> 8))
            &&& t->Ok_0[(second, q.symbol_code >> 8)].amount == q.amount
            &&& !t->Ok_0.contains_key((first, q.symbol_code >> 8))
        }),
{
    let key = q.symbol_code >> 8;
    let s1 = spec_create(stats, auth, issuer, max_supply)->Ok_0;
    let p = spec_issue(s1, balances, auth, first, q)->Ok_0;
    assert(p.1 == balances.insert((first, key), q));
    let after_debit = spec_debit(p.1, first, q)->Ok_0;
    assert(after_debit == p.1.remove((first, key)));
    assert(!after_debit.contains_key((second, key)));
}

} // verus!
