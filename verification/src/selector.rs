use vstd::prelude::*;
use crate::constants::{MAX_SYMBOLS_WATCH, MIN_ARB_THRESH, UPDATE_SYMBOLS_SECONDS};
use crate::record::cycle_assets;
use crate::strutil::{concat_suffix, str_name_eq, vec_contains_name};
use crate::types::Edge;

verus! {

/// Assets never accumulated: ubiquitous anchors that would trivially
/// dominate the watch-list.
pub open spec fn is_ignored(a: Seq<char>) -> bool {
    a == "BTC"@ || a == "USDT"@
}

/// One accumulation step: an asset enters the set only while the set has
/// room, is not on the ignore list, and is not present yet.
pub open spec fn spec_note_asset(acc: Seq<Seq<char>>, a: Seq<char>) -> Seq<Seq<char>> {
    if acc.len() < MAX_SYMBOLS_WATCH && !is_ignored(a) && !acc.contains(a) {
        acc.push(a)
    } else {
        acc
    }
}

/// Accumulate every name of `names[i..]` in order.
pub open spec fn spec_note_assets(acc: Seq<Seq<char>>, names: Seq<Seq<char>>, i: int) -> Seq<
    Seq<char>,
>
    decreases names.len() - i,
{
    if i < 0 || i >= names.len() {
        acc
    } else {
        spec_note_assets(spec_note_asset(acc, names[i]), names, i + 1)
    }
}

/// The watch-list a full accumulation set expands to: each asset's USDT-
/// and BTC-denominated trading pairs, in accumulation order.
pub open spec fn spec_watch_pairs(assets: Seq<Seq<char>>) -> Seq<Seq<char>> {
    Seq::new(
        2 * assets.len(),
        |i: int|
            if i % 2 == 0 {
                assets[i / 2] + "USDT"@
            } else {
                assets[i / 2] + "BTC"@
            },
    )
}

/// The adaptive symbol selector's local state: the assets of recently
/// profitable cycles accumulated so far, and the earliest time the next
/// watch-list swap may happen.
pub struct SymbolAccumulator {
    pub assets: Vec<String>,
    pub next_save: u64,
}

impl SymbolAccumulator {
    /// The accumulation set is bounded, duplicate-free and never holds an
    /// ignored anchor.
    pub open spec fn wf(&self) -> bool {
        &&& self.assets@.len() <= MAX_SYMBOLS_WATCH
        &&& forall|i: int, j: int|
            0 <= i < j < self.assets@.len() ==> self.assets.deep_view()[i]
                != self.assets.deep_view()[j]
        &&& forall|i: int|
            0 <= i < self.assets@.len() ==> !is_ignored(#[trigger] self.assets.deep_view()[i])
    }

    /// A fresh accumulator whose first swap opportunity lies one refresh
    /// interval ahead.
    pub fn new(now: u64) -> (r: Self)
        requires
            now + UPDATE_SYMBOLS_SECONDS <= u64::MAX,
        ensures
            r.wf(),
            r.assets@.len() == 0,
            r.next_save == now + UPDATE_SYMBOLS_SECONDS,
    {
        SymbolAccumulator { assets: Vec::new(), next_save: now + UPDATE_SYMBOLS_SECONDS }
    }

    /// Record one validated cycle: when its realized rate meets the
    /// profitability threshold, accumulate every leg's assets, in leg
    /// order, under the set's capacity and ignore rules; a cycle under the
    /// threshold changes nothing.
    pub fn note_cycle(&mut self, cycle: &Vec<Edge>, arb_rate: u128)
        requires
            old(self).wf(),
        ensures
            final(self).wf(),
            final(self).next_save == old(self).next_save,
            arb_rate < MIN_ARB_THRESH ==> final(self).assets == old(self).assets,
            arb_rate >= MIN_ARB_THRESH ==> final(self).assets.deep_view() == spec_note_assets(
                old(self).assets.deep_view(),
                cycle_assets(cycle@),
                0,
            ),
    {
        if arb_rate < MIN_ARB_THRESH {
            return ;
        }
        let ghost names = cycle_assets(cycle@);
        let ghost target = spec_note_assets(self.assets.deep_view(), names, 0);
        let ghost save = self.next_save;
        let n = cycle.len();
        let mut i: usize = 0;
        while i < n
            invariant
                0 <= i <= n,
                n == cycle@.len(),
                names == cycle_assets(cycle@),
                self.wf(),
                self.next_save == save,
                spec_note_assets(self.assets.deep_view(), names, 2 * i as int) == target,
            decreases n - i,
        {
            note_one_asset(&mut self.assets, &cycle[i].from);
            proof {
                assert((2 * i as int) % 2 == 0);
                assert((2 * i as int) / 2 == i as int);
                assert(names[2 * i as int] == cycle@[i as int].from@);
                assert(spec_note_assets(self.assets.deep_view(), names, 2 * i as int + 1)
                    == target);
            }
            note_one_asset(&mut self.assets, &cycle[i].to);
            proof {
                assert((2 * i as int + 1) % 2 == 1);
                assert((2 * i as int + 1) / 2 == i as int);
                assert(names[2 * i as int + 1] == cycle@[i as int].to@);
                assert(spec_note_assets(self.assets.deep_view(), names, 2 * (i as int + 1))
                    == target);
            }
            i = i + 1;
        }
        proof {
            assert(2 * n as int >= names.len());
        }
    }

    /// Watch-list swap gate: only at a slow-tick boundary, and only when
    /// the accumulation set is exactly full, hand out the expanded
    /// watch-list, clear the set and advance the deadline; otherwise
    /// change nothing and hand out nothing.  The list handed out is always
    /// the complete expansion, never a partial one.
    pub fn maybe_flush(&mut self, now: u64) -> (r: Option<Vec<String>>)
        requires
            old(self).wf(),
            now + UPDATE_SYMBOLS_SECONDS <= u64::MAX,
        ensures
            final(self).wf(),
            (r is Some <==> (now >= old(self).next_save && old(self).assets@.len()
                == MAX_SYMBOLS_WATCH)),
            r is None ==> *final(self) == *old(self),
            (match r {
                Some(list) => {
                    &&& list.deep_view() == spec_watch_pairs(old(self).assets.deep_view())
                    &&& final(self).assets@.len() == 0
                    &&& final(self).next_save == now + UPDATE_SYMBOLS_SECONDS
                },
                None => true,
            }),
    {
        if now >= self.next_save && self.assets.len() == MAX_SYMBOLS_WATCH {
            let n = self.assets.len();
            let mut list: Vec<String> = Vec::new();
            let mut i: usize = 0;
            while i < n
                invariant
                    0 <= i <= n,
                    n == self.assets@.len(),
                    list@.len() == 2 * i,
                    forall|j: int|
                        0 <= j < i ==> list.deep_view()[2 * j] == #[trigger] self.assets.deep_view()[j]
                            + "USDT"@,
                    forall|j: int|
                        0 <= j < i ==> list.deep_view()[2 * j + 1]
                            == #[trigger] self.assets.deep_view()[j] + "BTC"@,
                decreases n - i,
            {
                let pair_usdt = concat_suffix(&self.assets[i], "USDT");
                let pair_btc = concat_suffix(&self.assets[i], "BTC");
                list.push(pair_usdt);
                list.push(pair_btc);
                i = i + 1;
            }
            proof {
                assert forall|k: int|
                    0 <= k < list.deep_view().len() implies list.deep_view()[k]
                    == spec_watch_pairs(self.assets.deep_view())[k] by {
                    if k % 2 == 0 {
                        assert(list.deep_view()[2 * (k / 2)] == self.assets.deep_view()[k / 2]
                            + "USDT"@);
                    } else {
                        assert(list.deep_view()[2 * (k / 2) + 1] == self.assets.deep_view()[k / 2]
                            + "BTC"@);
                    }
                }
                assert(list.deep_view() =~= spec_watch_pairs(self.assets.deep_view()));
            }
            self.assets = Vec::new();
            self.next_save = now + UPDATE_SYMBOLS_SECONDS;
            Some(list)
        } else {
            None
        }
    }
}

/// Accumulate one asset under the capacity and ignore rules.
fn note_one_asset(assets: &mut Vec<String>, a: &String)
    requires
        old(assets)@.len() <= MAX_SYMBOLS_WATCH,
        forall|i: int, j: int|
            0 <= i < j < old(assets)@.len()
                ==> old(assets).deep_view()[i] != old(assets).deep_view()[j],
        forall|i: int|
            0 <= i < old(assets)@.len() ==> !is_ignored(#[trigger] old(assets).deep_view()[i]),
    ensures
        final(assets).deep_view() == spec_note_asset(old(assets).deep_view(), a@),
        final(assets)@.len() <= MAX_SYMBOLS_WATCH,
        forall|i: int, j: int|
            0 <= i < j < final(assets)@.len()
                ==> final(assets).deep_view()[i] != final(assets).deep_view()[j],
        forall|i: int|
            0 <= i < final(assets)@.len() ==> !is_ignored(#[trigger] final(assets).deep_view()[i]),
{
    if assets.len() < MAX_SYMBOLS_WATCH {
        let ignored = str_name_eq(a, "BTC") || str_name_eq(a, "USDT");
        if !ignored && !vec_contains_name(assets, a) {
            assets.push(a.clone());
            proof {
                assert(assets.deep_view() =~= old(assets).deep_view().push(a@));
                assert(forall|k: int|
                    0 <= k < old(assets).deep_view().len() ==> old(assets).deep_view()[k] != a@);
            }
        }
    }
}

} // verus!
