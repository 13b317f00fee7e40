//! The logical tile grid: an unbounded lookup from signed coordinate pairs
//! to tiles.  Coordinates never written hold no tile; looking them up is not
//! an error but the signal "nothing there".

use vstd::prelude::*;
use std::collections::HashMap;

verus! {

/// Classification of one grid cell: impassable rock or walkable ground.
#[derive(Clone, Copy, PartialEq, Eq, PartialOrd, Ord, Structural, Debug)]
pub enum TileKind {
    Wall,
    Floor,
}

/// Packs a signed coordinate pair into one unsigned key, bijectively:
/// each axis is shifted into `[0, 2^32)` and the halves are combined.
spec fn tile_key(x: i32, y: i32) -> u64 {
    (((x + 0x8000_0000) * 0x1_0000_0000) + (y + 0x8000_0000)) as u64
}

proof fn lemma_tile_key_injective(x1: i32, y1: i32, x2: i32, y2: i32)
    requires
        tile_key(x1, y1) == tile_key(x2, y2),
    ensures
        x1 == x2 && y1 == y2,
{
    let k1 = ((x1 + 0x8000_0000) * 0x1_0000_0000) + (y1 + 0x8000_0000);
    let k2 = ((x2 + 0x8000_0000) * 0x1_0000_0000) + (y2 + 0x8000_0000);
    assert(0 <= k1 < 0x1_0000_0000_0000_0000);
    assert(0 <= k2 < 0x1_0000_0000_0000_0000);
    assert(k1 == k2);
}

fn tile_key_exec(x: i32, y: i32) -> (k: u64)
    ensures
        k == tile_key(x, y),
{
    let xs = (x as i64) + 0x8000_0000i64;
    let ys = (y as i64) + 0x8000_0000i64;
    (xs as u64) * 0x1_0000_0000u64 + (ys as u64)
}

/// The grid itself.  A hash table holds the tiles; beside it a list of the
/// stored coordinates, kept duplicate-free, makes enumeration possible.
pub struct TileMap {
    store: HashMap<u64, TileKind>,
    coords: Vec<(i32, i32)>,
}

impl View for TileMap {
    type V = Map<(i32, i32), TileKind>;

    closed spec fn view(&self) -> Map<(i32, i32), TileKind> {
        Map::new(
            |p: (i32, i32)| self.store@.contains_key(tile_key(p.0, p.1)),
            |p: (i32, i32)| self.store@[tile_key(p.0, p.1)],
        )
    }
}

impl TileMap {
    /// Well-formedness: the coordinate list names exactly the stored keys,
    /// each once.  Constructors establish it and mutators preserve it.
    pub closed spec fn wf(&self) -> bool {
        &&& self.coords@.no_duplicates()
        &&& forall|p: (i32, i32)|
            #![trigger self.coords@.contains(p)]
            #![trigger self.store@.contains_key(tile_key(p.0, p.1))]
            self.coords@.contains(p) <==> self.store@.contains_key(tile_key(p.0, p.1))
    }

    /// An empty grid holding no tile at all.
    pub fn new() -> (m: TileMap)
        ensures
            m@ == Map::<(i32, i32), TileKind>::empty(),
            m.wf(),
    {
        let m = TileMap { store: HashMap::new(), coords: Vec::new() };
        proof {
            assert(m@ =~= Map::<(i32, i32), TileKind>::empty());
        }
        m
    }

    /// The tile stored at `(x, y)`, or `None` where none was ever stored.
    /// Total over all coordinates: out-of-range lookups simply find nothing.
    pub fn get(&self, x: i32, y: i32) -> (r: Option<TileKind>)
        ensures
            r == (if self@.contains_key((x, y)) {
                Some(self@[(x, y)])
            } else {
                None::<TileKind>
            }),
    {
        let k = tile_key_exec(x, y);
        match self.store.get(&k) {
            Some(t) => Some(*t),
            None => None,
        }
    }

    /// Stores `kind` at `(x, y)`, overwriting any earlier tile there and
    /// leaving every other coordinate as it was.
    pub fn set(&mut self, x: i32, y: i32, kind: TileKind)
        requires
            old(self).wf(),
        ensures
            final(self)@ == old(self)@.insert((x, y), kind),
            final(self).wf(),
    {
        let k = tile_key_exec(x, y);
        proof {
            assert forall|p: (i32, i32)| p != (x, y) implies tile_key(p.0, p.1) != tile_key(
                x,
                y,
            ) by {
                if tile_key(p.0, p.1) == tile_key(x, y) {
                    lemma_tile_key_injective(p.0, p.1, x, y);
                }
            }
        }
        if !self.store.contains_key(&k) {
            self.coords.push((x, y));
            proof {
                assert(!old(self).coords@.contains((x, y)));
                assert(self.coords@.last() == (x, y));
                assert(forall|i: int|
                    0 <= i < old(self).coords@.len() ==> self.coords@[i] == old(self).coords@[i]);
                assert(self.coords@.no_duplicates());
            }
        }
        self.store.insert(k, kind);
        proof {
            assert(self.coords@.contains((x, y))) by {
                if old(self).store@.contains_key(k) {
                    assert(old(self).coords@.contains((x, y)));
                    let i = choose|i: int|
                        0 <= i < old(self).coords@.len() && old(self).coords@[i] == (x, y);
                    assert(self.coords@[i] == (x, y));
                } else {
                    assert(self.coords@.last() == (x, y));
                }
            }
            assert forall|p: (i32, i32)|
                self.coords@.contains(p) <==> self.store@.contains_key(
                    tile_key(p.0, p.1),
                ) by {
                if p != (x, y) {
                    assert(tile_key(p.0, p.1) != tile_key(x, y));
                    assert(self.coords@.contains(p) <==> old(self).coords@.contains(p)) by {
                        if self.coords@.contains(p) {
                            let i = choose|i: int|
                                0 <= i < self.coords@.len() && self.coords@[i] == p;
                            assert(i < old(self).coords@.len());
                        } else {
                            if old(self).coords@.contains(p) {
                                let i = choose|i: int|
                                    0 <= i < old(self).coords@.len() && old(self).coords@[i]
                                        == p;
                                assert(self.coords@[i] == p);
                            }
                        }
                    }
                }
            }
            assert(self.wf());
            assert(self@ =~= old(self)@.insert((x, y), kind));
        }
    }

    /// Every stored coordinate paired with its tile, each coordinate exactly
    /// once, in no promised order.  This is the read access a renderer gets
    /// for its initial draw.
    pub fn tiles(&self) -> (r: Vec<((i32, i32), TileKind)>)
        requires
            self.wf(),
        ensures
            forall|i: int|
                0 <= i < r@.len() ==> self@.contains_key((#[trigger] r@[i]).0) && self@[r@[i].0]
                    == r@[i].1,
            forall|p: (i32, i32)| #[trigger]
                self@.contains_key(p) ==> exists|i: int| 0 <= i < r@.len() && r@[i].0 == p,
            forall|i: int, j: int| 0 <= i < j < r@.len() ==> (#[trigger] r@[i]).0 != (#[trigger] r@[j]).0,
    {
        let mut r: Vec<((i32, i32), TileKind)> = Vec::new();
        let mut n: usize = 0;
        while n < self.coords.len()
            invariant
                self.wf(),
                n <= self.coords@.len(),
                r@.len() == n,
                forall|j: int| 0 <= j < n ==> #[trigger] r@[j].0 == self.coords@[j],
                forall|j: int|
                    0 <= j < n ==> self@.contains_key(#[trigger] r@[j].0) && self@[r@[j].0]
                        == r@[j].1,
            decreases self.coords@.len() - n,
        {
            let (x, y) = self.coords[n];
            proof {
                assert(self.coords@.contains((x, y)));
            }
            let k = tile_key_exec(x, y);
            match self.store.get(&k) {
                Some(t) => {
                    r.push(((x, y), *t));
                },
                None => {
                    proof {
                        assert(false);
                    }
                },
            }
            n = n + 1;
        }
        proof {
            assert forall|p: (i32, i32)| #[trigger]
                self@.contains_key(p) implies exists|i: int|
                0 <= i < r@.len() && r@[i].0 == p by {
                assert(self.coords@.contains(p));
                let i = choose|i: int| 0 <= i < self.coords@.len() && self.coords@[i] == p;
                assert(r@[i].0 == p);
            }
            assert forall|i: int, j: int| 0 <= i < j < r@.len() implies r@[i].0 != r@[j].0 by {
                assert(r@[i].0 == self.coords@[i]);
                assert(r@[j].0 == self.coords@[j]);
            }
        }
        r
    }

    /// Every coordinate currently holding a `Floor` tile, each exactly once.
    pub fn floor_positions(&self) -> (r: Vec<(i32, i32)>)
        requires
            self.wf(),
        ensures
            forall|i: int|
                0 <= i < r@.len() ==> #[trigger] self@.contains_key(r@[i]) && self@[r@[i]]
                    == TileKind::Floor,
            forall|p: (i32, i32)|
                self@.contains_key(p) && self@[p] == TileKind::Floor ==> r@.contains(p),
            r@.no_duplicates(),
    {
        let all = self.tiles();
        let mut r: Vec<(i32, i32)> = Vec::new();
        let mut n: usize = 0;
        while n < all.len()
            invariant
                forall|i: int|
                    0 <= i < all@.len() ==> self@.contains_key((#[trigger] all@[i]).0)
                        && self@[all@[i].0] == all@[i].1,
                forall|p: (i32, i32)| #[trigger]
                    self@.contains_key(p) ==> exists|i: int| 0 <= i < all@.len() && all@[i].0
                        == p,
                forall|i: int, j: int|
                    0 <= i < j < all@.len() ==> (#[trigger] all@[i]).0 != (#[trigger] all@[j]).0,
                n <= all@.len(),
                forall|i: int|
                    0 <= i < r@.len() ==> self@.contains_key(#[trigger] r@[i]) && self@[r@[i]]
                        == TileKind::Floor,
                forall|i: int|
                    0 <= i < r@.len() ==> exists|j: int| 0 <= j < n && all@[j].0 == #[trigger] r@[i],
                forall|j: int|
                    0 <= j < n && all@[j].1 == TileKind::Floor ==> r@.contains(
                        #[trigger] all@[j].0,
                    ),
                r@.no_duplicates(),
            decreases all@.len() - n,
        {
            let ((x, y), t) = all[n];
            proof {
                assert(all@[n as int].0 == (x, y));
                assert(all@[n as int].1 == t);
                assert(self@.contains_key(all@[n as int].0));
            }
            let ghost prev = r@;
            if t == TileKind::Floor {
                proof {
                    assert(!prev.contains((x, y))) by {
                        if prev.contains((x, y)) {
                            let i = choose|i: int| 0 <= i < prev.len() && prev[i] == (x, y);
                            let j = choose|j: int| 0 <= j < n && all@[j].0 == prev[i];
                            assert(all@[j].0 != all@[n as int].0);
                        }
                    }
                }
                r.push((x, y));
                proof {
                    assert(r@.last() == (x, y));
                    assert(forall|i: int| 0 <= i < prev.len() ==> r@[i] == prev[i]);
                    assert(r@.no_duplicates());
                    assert forall|i: int| 0 <= i < r@.len() implies exists|j: int|
                        0 <= j < n + 1 && all@[j].0 == #[trigger] r@[i] by {
                        if i < r@.len() - 1 {
                            let j = choose|j: int| 0 <= j < n && all@[j].0 == prev[i];
                            assert(0 <= j < n + 1 && all@[j].0 == r@[i]);
                        } else {
                            assert(all@[n as int].0 == r@[i]);
                        }
                    }
                    assert forall|j: int|
                        0 <= j < n + 1 && all@[j].1 == TileKind::Floor implies r@.contains(
                        all@[j].0,
                    ) by {
                        if j < n {
                            let i = choose|i: int|
                                0 <= i < prev.len() && prev[i] == all@[j].0;
                            assert(r@[i] == all@[j].0);
                        } else {
                            assert(r@[r@.len() - 1] == all@[j].0);
                        }
                    }
                }
            } else {
                proof {
                    assert forall|j: int|
                        0 <= j < n + 1 && all@[j].1 == TileKind::Floor implies r@.contains(
                        all@[j].0,
                    ) by {
                        assert(j < n);
                        let i = choose|i: int| 0 <= i < prev.len() && prev[i] == all@[j].0;
                        assert(r@[i] == all@[j].0);
                    }
                }
            }
            n = n + 1;
        }
        proof {
            assert forall|p: (i32, i32)|
                self@.contains_key(p) && self@[p] == TileKind::Floor implies r@.contains(
                p,
            ) by {
                let i = choose|i: int| 0 <= i < all@.len() && all@[i].0 == p;
                assert(all@[i].1 == TileKind::Floor);
                assert(r@.contains(all@[i].0));
            }
        }
        r
    }
}

} // verus!
