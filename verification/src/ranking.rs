//! Keeping the largest items of a stream, in order.

use vstd::prelude::*;

verus! {

/// Something that is ranked by a number: the larger, the further in front.
pub trait Ranked {
    /// The number by which the value is ranked.
    spec fn rank(&self) -> u64;

    /// The number by which the value is ranked.
    fn rank_value(&self) -> (rank: u64)
        ensures
            rank == self.rank(),
    ;
}

/// The ranks of a list of items, in order.
pub open spec fn ranks_of<T: Ranked>(items: Seq<T>) -> Seq<u64> {
    Seq::new(items.len(), |i: int| items[i].rank())
}

/// The item at `a` stands in front of the item at `b`: it ranks higher, or
/// it ranks the same and came first.
pub open spec fn precedes(ranks: Seq<u64>, a: int, b: int) -> bool {
    ranks[a] > ranks[b] || (ranks[a] == ranks[b] && a < b)
}

/// The item at `j` is one of those picked.
pub open spec fn is_picked(origin: Seq<int>, j: int) -> bool {
    exists|k: int| 0 <= k < origin.len() && #[trigger] origin[k] == j
}

/// `origin` lists the places of the `limit` foremost of the items with the
/// ranks `ranks`, or of all of them if there are fewer, from the front to
/// the back: highest rank first, equal ranks in the order of their places,
/// and whatever is not listed stands behind everything that is.
pub open spec fn is_ranking(ranks: Seq<u64>, limit: int, origin: Seq<int>) -> bool {
    &&& origin.len() == if ranks.len() <= limit {
        ranks.len() as int
    } else {
        limit
    }
    &&& forall|k: int| 0 <= k < origin.len() ==> 0 <= #[trigger] origin[k] < ranks.len()
    &&& forall|k1: int, k2: int|
        #![trigger origin[k1], origin[k2]]
        0 <= k1 < k2 < origin.len() ==> precedes(ranks, origin[k1], origin[k2])
    &&& forall|j: int, k: int|
        #![trigger is_picked(origin, j), origin[k]]
        0 <= j < ranks.len() && 0 <= k < origin.len() && !is_picked(origin, j) ==> precedes(
            ranks,
            origin[k],
            j,
        )
    &&& ranks.len() <= limit ==> forall|j: int| 0 <= j < ranks.len() ==> is_picked(origin, j)
}

/// `picked` holds the `limit` foremost of `items`, or all of them if there
/// are fewer, from the front to the back; `origin` says where in `items`
/// each of them stands.
pub open spec fn is_selection<T: Ranked>(
    items: Seq<T>,
    limit: int,
    picked: Seq<T>,
    origin: Seq<int>,
) -> bool {
    &&& is_ranking(ranks_of(items), limit, origin)
    &&& picked.len() == origin.len()
    &&& forall|k: int| 0 <= k < picked.len() ==> picked[k] == items[#[trigger] origin[k]]
}

/// `picked` holds the `limit` foremost of `items`, from the front to the
/// back: the items ordered by rank, highest first, items of equal rank in
/// the order in which they stand in `items`, and cut off after `limit`.
pub open spec fn is_top_of<T: Ranked>(items: Seq<T>, limit: int, picked: Seq<T>) -> bool {
    exists|origin: Seq<int>| is_selection(items, limit, picked, origin)
}

/// A list that keeps the `limit` foremost of the items offered to it.
pub struct TopList<T: Ranked> {
    items: Vec<T>,
    limit: usize,
    offered: Ghost<Seq<T>>,
    origin: Ghost<Seq<int>>,
}

impl<T: Ranked> TopList<T> {
    /// Everything that was offered, in order.
    pub closed spec fn offered(&self) -> Seq<T> {
        self.offered@
    }

    /// The number of items that the list keeps at most.
    pub closed spec fn limit(&self) -> usize {
        self.limit
    }

    /// The list holds the foremost of what was offered.
    pub closed spec fn is_valid(&self) -> bool {
        is_selection(self.offered@, self.limit as int, self.items@, self.origin@)
    }

    /// An empty list that keeps up to `limit` items.
    pub fn new(limit: usize) -> (list: Self)
        ensures
            list.is_valid(),
            list.limit() == limit,
            list.offered() == Seq::<T>::empty(),
    {
        TopList { items: Vec::new(), limit, offered: Ghost(Seq::empty()), origin: Ghost(Seq::empty()) }
    }

    /// Offers one more item. It is put behind the last item that ranks at
    /// least as high; if the list is then too long, its last item leaves.
    pub fn offer(&mut self, item: T)
        requires
            old(self).is_valid(),
        ensures
            final(self).is_valid(),
            final(self).limit() == old(self).limit(),
            final(self).offered() == old(self).offered().push(item),
    {
        let ghost seen = self.offered@;
        let ghost before = self.items@;
        let ghost before_origin = self.origin@;
        let ghost now = seen.push(item);
        let ghost fresh = seen.len() as int;
        let rank = item.rank_value();
        let mut at: usize = 0;
        while at < self.items.len() && self.items[at].rank_value() >= rank
            invariant
                at <= self.items.len(),
                self.items@ == before,
                self.limit == old(self).limit,
                self.offered@ == seen,
                self.origin@ == before_origin,
                rank == item.rank(),
                forall|k: int| 0 <= k < at ==> (#[trigger] before[k]).rank() >= rank,
            decreases self.items.len() - at,
        {
            at = at + 1;
        }
        proof {
            assert forall|k: int| at <= k < before.len() implies (#[trigger] before[k]).rank()
                < rank by {
                if k > at {
                    let a = before_origin[at as int];
                    let b = before_origin[k];
                    assert(precedes(ranks_of(seen), a, b));
                }
            }
        }
        self.items.insert(at, item);
        let ghost grown = self.items@;
        let ghost grown_origin = before_origin.insert(at as int, fresh);
        proof {
            self.offered@ = now;
            before.insert_ensures(at as int, item);
            before_origin.insert_ensures(at as int, fresh);
            assert forall|k: int| 0 <= k < grown.len() implies 0 <= #[trigger] grown_origin[k]
                < now.len() && grown[k] == now[grown_origin[k]] by {
                if k < at {
                    assert(grown_origin[k] == before_origin[k]);
                } else if k > at {
                    assert(grown_origin[k] == before_origin[k - 1]);
                    assert(grown[k] == before[k - 1]);
                }
            }
            assert forall|k1: int, k2: int|
                #![trigger grown_origin[k1], grown_origin[k2]]
                0 <= k1 < k2 < grown.len() implies precedes(
                ranks_of(now),
                grown_origin[k1],
                grown_origin[k2],
            ) by {
                let a = if k1 < at {
                    k1
                } else {
                    k1 - 1
                };
                let b = if k2 < at {
                    k2
                } else {
                    k2 - 1
                };
                if k1 != at && k2 != at {
                    assert(grown_origin[k1] == before_origin[a]);
                    assert(grown_origin[k2] == before_origin[b]);
                    assert(precedes(ranks_of(seen), before_origin[a], before_origin[b]));
                } else if k1 == at {
                    assert(grown_origin[k2] == before_origin[b]);
                    assert(before[b].rank() < rank);
                } else {
                    assert(grown_origin[k1] == before_origin[a]);
                    assert(before[a].rank() >= rank);
                }
            }
        }
        if self.items.len() > self.limit {
            let dropped = self.items.pop();
            proof {
                let kept_origin = grown_origin.drop_last();
                let last = before.len() - 1;
                self.origin@ = kept_origin;
                let kept = self.items@;
                assert(kept =~= grown.drop_last());
                assert(before.len() == self.limit);
                assert forall|j: int, k: int|
                    #![trigger is_picked(kept_origin, j), kept_origin[k]]
                    0 <= j < now.len() && 0 <= k < kept.len() && !is_picked(
                        kept_origin,
                        j,
                    ) implies precedes(ranks_of(now), kept_origin[k], j) by {
                    assert(kept_origin[k] == grown_origin[k]);
                    if j == fresh {
                        if at as int <= last {
                            assert(kept_origin[at as int] == fresh);
                        }
                        assert(kept_origin[k] == before_origin[k]);
                        assert(before[k].rank() >= rank);
                    } else if is_picked(before_origin, j) {
                        let x = choose|x: int|
                            0 <= x < before_origin.len() && #[trigger] before_origin[x] == j;
                        if x < at {
                            assert(kept_origin[x] == j);
                        } else {
                            assert(grown_origin[x + 1] == j);
                            if x + 1 < kept.len() {
                                assert(kept_origin[x + 1] == j);
                            }
                            assert(x == last);
                            assert(precedes(ranks_of(now), grown_origin[k], grown_origin[grown.len() - 1]));
                        }
                    } else {
                        if k == at {
                            assert(precedes(ranks_of(seen), before_origin[last], j));
                            assert(before[last].rank() < rank);
                        } else {
                            let a = if k < at {
                                k
                            } else {
                                k - 1
                            };
                            assert(kept_origin[k] == before_origin[a]);
                            assert(precedes(ranks_of(seen), before_origin[a], j));
                        }
                    }
                }
                assert forall|k1: int, k2: int|
                    #![trigger kept_origin[k1], kept_origin[k2]]
                    0 <= k1 < k2 < kept.len() implies precedes(
                    ranks_of(now),
                    kept_origin[k1],
                    kept_origin[k2],
                ) by {
                    assert(kept_origin[k1] == grown_origin[k1]);
                    assert(kept_origin[k2] == grown_origin[k2]);
                }
                assert forall|k: int| 0 <= k < kept.len() implies 0 <= #[trigger] kept_origin[k]
                    < now.len() && kept[k] == now[kept_origin[k]] by {
                    assert(kept_origin[k] == grown_origin[k]);
                }
            }
        } else {
            proof {
                self.origin@ = grown_origin;
                assert(seen.len() == before.len());
                assert forall|j: int| 0 <= j < now.len() implies is_picked(grown_origin, j) by {
                    if j == fresh {
                        assert(grown_origin[at as int] == j);
                    } else {
                        assert(is_picked(before_origin, j));
                        let x = choose|x: int|
                            0 <= x < before_origin.len() && #[trigger] before_origin[x] == j;
                        if x < at {
                            assert(grown_origin[x] == j);
                        } else {
                            assert(grown_origin[x + 1] == j);
                        }
                    }
                }
            }
        }
    }

    /// The items kept, from the front to the back.
    pub fn into_vec(self) -> (picked: Vec<T>)
        requires
            self.is_valid(),
        ensures
            is_top_of(self.offered(), self.limit() as int, picked@),
    {
        self.items
    }
}

} // verus!
