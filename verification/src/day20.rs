//! Mixing an encrypted file: each value moves through a circular list by its
//! own amount, in the order the values originally appeared.
use vstd::prelude::*;

verus! {

use vstd::seq_lib::to_multiset_insert;
use vstd::seq_lib::to_multiset_remove;

/// One file entry: its original position and its value.
#[derive(Debug, Clone, Copy, PartialEq, Eq, Hash, Structural)]
pub struct Entry {
    pub index: u16,
    pub value: i16,
}

/// Position of the first entry with original position `item`, or -1.
pub open spec fn find_pos(s: Seq<Entry>, item: int) -> int
    decreases s.len(),
{
    if s.len() == 0 {
        -1
    } else if s[0].index == item {
        0
    } else if find_pos(s.skip(1), item) == -1 {
        -1
    } else {
        1 + find_pos(s.skip(1), item)
    }
}

/// The found position indexes an entry with the right original position, and
/// nothing before it has that position.
pub proof fn lemma_find_pos(s: Seq<Entry>, item: int)
    ensures
        -1 <= find_pos(s, item) < s.len(),
        find_pos(s, item) >= 0 ==> s[find_pos(s, item)].index == item,
        find_pos(s, item) == -1 ==> forall|k: int| 0 <= k < s.len() ==> (#[trigger] s[k]).index
            != item,
        forall|k: int| 0 <= k < find_pos(s, item) ==> (#[trigger] s[k]).index != item,
    decreases s.len(),
{
    if s.len() > 0 && s[0].index != item {
        lemma_find_pos(s.skip(1), item);
        assert forall|k: int| 0 <= k < s.len() && find_pos(s, item) == -1 implies (
        #[trigger] s[k]).index != item by {
            if k > 0 {
                assert(s.skip(1)[k - 1] == s[k]);
            }
        }
        assert forall|k: int| 0 <= k < find_pos(s, item) implies (#[trigger] s[k]).index
            != item by {
            if k > 0 {
                assert(s.skip(1)[k - 1] == s[k]);
            }
        }
    }
}

/// One mixing move on the flattened list `s` (of length `m + 1`): the first
/// entry with original position `item` moves from its position `k` to
/// `(k + value * key) mod m`, counted on the list without it.
pub open spec fn mix_step(s: Seq<Entry>, item: int, key: int) -> Seq<Entry> {
    let k = find_pos(s, item);
    let d = (k + s[k].value * key) % (s.len() - 1);
    if d == k {
        s
    } else {
        s.remove(k).insert(d, s[k])
    }
}

/// The whole mix: one move per entry, in original order, for items `0 .. n`.
pub open spec fn mix_all(s: Seq<Entry>, key: int, n: int) -> Seq<Entry>
    decreases n,
{
    if n <= 0 {
        s
    } else {
        mix_step(mix_all(s, key, n - 1), n - 1, key)
    }
}

/// Whether some entry of `s` has original position `item`.
pub open spec fn has_index(s: Seq<Entry>, item: int) -> bool {
    exists|k: int| 0 <= k < s.len() && (#[trigger] s[k]).index == item
}

/// The circular file being mixed.
pub struct Mixer {
    items: Vec<Entry>,
}

impl Mixer {
    /// Every original position below the length appears in the list, and the
    /// list is small enough for 16-bit original positions.
    pub closed spec fn wf(&self) -> bool {
        &&& self.items@.len() <= 0x10000
        &&& forall|item: int|
            0 <= item < self.items@.len() ==> #[trigger] has_index(self.items@, item)
    }

    /// The entries, in their current order.
    pub closed spec fn view(&self) -> Seq<Entry> {
        self.items@
    }

    /// Builds the file from its values, remembering original positions.
    pub fn from_values(values: &Vec<i16>) -> (r: Mixer)
        requires
            values@.len() <= 0x10000,
        ensures
            r.wf(),
            r@.len() == values@.len(),
            forall|k: int|
                0 <= k < values@.len() ==> #[trigger] r@[k] == (Entry {
                    index: k as u16,
                    value: values@[k],
                }),
    {
        let mut items: Vec<Entry> = Vec::new();
        let mut k: usize = 0;
        while k < values.len()
            invariant
                k <= values@.len(),
                values@.len() <= 0x10000,
                items@.len() == k,
                forall|k2: int|
                    0 <= k2 < k ==> #[trigger] items@[k2] == (Entry {
                        index: k2 as u16,
                        value: values@[k2],
                    }),
            decreases values@.len() - k,
        {
            items.push(Entry { index: k as u16, value: values[k] });
            k = k + 1;
        }
        let r = Mixer { items };
        proof {
            assert forall|item: int| 0 <= item < r.items@.len() implies #[trigger] has_index(
                r.items@,
                item,
            ) by {
                assert(r.items@[item].index == item);
            }
        }
        r
    }

    /// How many entries the file holds.
    pub fn len(&self) -> (n: usize)
        ensures
            n == self@.len(),
    {
        self.items.len()
    }

    /// The entries, in their current order.
    pub fn iter(&self) -> (r: Vec<Entry>)
        ensures
            r@ == self@,
    {
        let mut r: Vec<Entry> = Vec::new();
        let mut k: usize = 0;
        while k < self.items.len()
            invariant
                k <= self.items@.len(),
                r@ == self.items@.take(k as int),
            decreases self.items@.len() - k,
        {
            let e = self.items[k];
            r.push(e);
            proof {
                assert(r@ =~= self.items@.take(k + 1));
            }
            k = k + 1;
        }
        proof {
            assert(self.items@.take(self.items@.len() as int) =~= self.items@);
        }
        r
    }

    /// Moves the entry with original position `item` by its value times
    /// `encryption_key`, around the circle of the other entries.
    #[verifier::loop_isolation(false)]
    #[verifier::rlimit(60)]
    pub fn mix_item(&mut self, item: usize, encryption_key: i64)
        requires
            old(self).wf(),
            2 <= old(self)@.len(),
            item < old(self)@.len(),
            -0x8000_0000_0000 <= encryption_key <= 0x8000_0000_0000,
        ensures
            final(self).wf(),
            final(self)@.len() == old(self)@.len(),
            final(self)@ == mix_step(old(self)@, item as int, encryption_key as int),
            final(self)@.to_multiset() == old(self)@.to_multiset(),
    {
        proof {
            lemma_find_pos(self.items@, item as int);
            assert(has_index(self.items@, item as int));
            assert(find_pos(self.items@, item as int) >= 0) by {
                if find_pos(self.items@, item as int) == -1 {
                    let k = choose|k: int|
                        0 <= k < self.items@.len() && (#[trigger] self.items@[k]).index
                            == item as int;
                    assert(self.items@[k].index != item as int);
                }
            }
        }
        let ghost s = self.items@;
        let mut src: usize = 0;
        while self.items[src].index as usize != item
            invariant
                0 <= src <= find_pos(s, item as int),
                self.items@ == s,
            decreases s.len() - src,
        {
            proof {
                lemma_find_pos(s, item as int);
                if src == find_pos(s, item as int) {
                    assert(false);
                }
            }
            src = src + 1;
        }
        proof {
            lemma_find_pos(s, item as int);
            assert(src == find_pos(s, item as int));
        }
        let entry = self.items[src];
        let m = (self.items.len() - 1) as u64;
        proof {
            assert(-0x4000_0000_0000_0000 <= (entry.value as int) * (encryption_key as int)
                <= 0x4000_0000_0000_0000) by (nonlinear_arith)
                requires
                    -0x8000 <= entry.value <= 0x7fff,
                    -0x8000_0000_0000 <= encryption_key <= 0x8000_0000_0000,
            ;
        }
        let shift = (entry.value as i64) * encryption_key;
        let pos = src as i64 + shift;
        let dest: usize = if pos >= 0 {
            ((pos as u64) % m) as usize
        } else {
            let r = ((-pos) as u64) % m;
            if r == 0 {
                0
            } else {
                (m - r) as usize
            }
        };
        proof {
            if pos < 0 {
                crate::tiles::lemma_mod_of_negative(pos as int, m as int);
            }
            assert(dest == (src + entry.value * encryption_key) % (s.len() - 1));
        }
        if dest == src {
            return ;
        }
        let moved = self.items.remove(src);
        self.items.insert(dest, moved);
        proof {
            to_multiset_remove(s, src as int);
            to_multiset_insert(s.remove(src as int), dest as int, entry);
            assert(s.contains(entry)) by {
                assert(s[src as int] == entry);
            }
            vstd::seq_lib::to_multiset_contains(s, entry);
            assert(self.items@.to_multiset() =~= s.to_multiset());
            assert forall|it: int| 0 <= it < self.items@.len() implies #[trigger] has_index(
                self.items@,
                it,
            ) by {
                assert(has_index(s, it));
                let k0 = choose|k: int| 0 <= k < s.len() && (#[trigger] s[k]).index == it;
                if k0 == src {
                    assert(self.items@[dest as int].index == it);
                } else {
                    let k1 = if k0 < src {
                        k0
                    } else {
                        k0 - 1
                    };
                    let k2 = if k1 < dest {
                        k1
                    } else {
                        k1 + 1
                    };
                    assert(s.remove(src as int)[k1] == s[k0]);
                    assert(self.items@[k2] == s.remove(src as int)[k1]);
                }
            }
        }
    }

    /// Mixes every entry once, in original order.
    #[verifier::loop_isolation(false)]
    pub fn mix(&mut self, encryption_key: i64)
        requires
            old(self).wf(),
            2 <= old(self)@.len(),
            -0x8000_0000_0000 <= encryption_key <= 0x8000_0000_0000,
        ensures
            final(self).wf(),
            final(self)@ == mix_all(old(self)@, encryption_key as int, old(self)@.len() as int),
            final(self)@.to_multiset() == old(self)@.to_multiset(),
    {
        let n = self.items.len();
        let mut i: usize = 0;
        while i < n
            invariant
                i <= n,
                self.wf(),
                self@.len() == n,
                self@ == mix_all(old(self)@, encryption_key as int, i as int),
                self@.to_multiset() == old(self)@.to_multiset(),
            decreases n - i,
        {
            self.mix_item(i, encryption_key);
            i = i + 1;
        }
    }
}

} // verus!
