//! A bitset over the lowercase ASCII letters, one `u32` bit per letter.
use vstd::prelude::*;

verus! {

/// A set of lowercase letters: bit `c - b'a'` stands for letter `c`.
#[derive(Copy, Clone, PartialEq, Eq, Structural, Debug)]
pub struct AsciiLowerBitSet(pub u32);

/// Whether the set's bit for letter `c` is set.
pub open spec fn spec_has(s: u32, c: u8) -> bool {
    s & (1u32 << ((c - 97) as u32)) != 0
}

/// Adding a letter sets exactly its own bit.
pub proof fn lemma_add_semantics(s: u32, c: u8, d: u8)
    requires
        97 <= c <= 122,
        97 <= d <= 122,
    ensures
        spec_has(s | (1u32 << ((c - 97) as u32)), d) == (c == d || spec_has(s, d)),
{
    let i = (c - 97) as u32;
    let j = (d - 97) as u32;
    assert(((s | (1u32 << i)) & (1u32 << j) != 0) == (i == j || s & (1u32 << j) != 0))
        by (bit_vector)
        requires
            i < 26 && j < 26,
    ;
}

/// Removing a letter clears exactly its own bit.
pub proof fn lemma_remove_semantics(s: u32, c: u8, d: u8)
    requires
        97 <= c <= 122,
        97 <= d <= 122,
    ensures
        spec_has(s & !(1u32 << ((c - 97) as u32)), d) == (c != d && spec_has(s, d)),
{
    let i = (c - 97) as u32;
    let j = (d - 97) as u32;
    assert(((s & !(1u32 << i)) & (1u32 << j) != 0) == (i != j && s & (1u32 << j) != 0))
        by (bit_vector)
        requires
            i < 26 && j < 26,
    ;
}

/// The empty set has no letter.
pub proof fn lemma_empty_semantics(d: u8)
    requires
        97 <= d <= 122,
    ensures
        !spec_has(0u32, d),
{
    let j = (d - 97) as u32;
    assert(0u32 & (1u32 << j) == 0) by (bit_vector);
}

/// How many of the bits `0 .. k` of `s` are set.
pub open spec fn spec_ones(s: u32, k: int) -> int
    decreases k,
{
    if k <= 0 {
        0
    } else {
        spec_ones(s, k - 1) + (if s & (1u32 << ((k - 1) as u32)) != 0 {
            1int
        } else {
            0int
        })
    }
}

impl AsciiLowerBitSet {
    /// The empty set.
    pub fn new() -> (r: AsciiLowerBitSet)
        ensures
            r.0 == 0,
    {
        AsciiLowerBitSet(0)
    }

    /// Adds letter `c` to the set.
    pub fn add(&mut self, c: u8)
        requires
            97 <= c <= 122,
        ensures
            final(self).0 == old(self).0 | (1u32 << ((c - 97) as u32)),
            spec_has(final(self).0, c),
            forall|d: u8| 97 <= d <= 122 ==> spec_has(final(self).0, d) == (c == d || spec_has(old(self).0, d)),
    {
        self.0 = self.0 | (1u32 << ((c - 97) as u32));
        proof {
            assert forall|d: u8| 97 <= d <= 122 implies #[trigger] spec_has(self.0, d) == (c == d
                || spec_has(old(self).0, d)) by {
                lemma_add_semantics(old(self).0, c, d);
            }
            assert(spec_has(self.0, c));
        }
    }

    /// Whether letter `c` is in the set.
    pub fn contains(&self, c: u8) -> (r: bool)
        requires
            97 <= c <= 122,
        ensures
            r == spec_has(self.0, c),
    {
        self.0 & (1u32 << ((c - 97) as u32)) != 0
    }

    /// Removes letter `c` from the set.
    pub fn remove(&mut self, c: u8)
        requires
            97 <= c <= 122,
        ensures
            final(self).0 == old(self).0 & !(1u32 << ((c - 97) as u32)),
            !spec_has(final(self).0, c),
            forall|d: u8| 97 <= d <= 122 ==> spec_has(final(self).0, d) == (c != d && spec_has(old(self).0, d)),
    {
        self.0 = self.0 & !(1u32 << ((c - 97) as u32));
        proof {
            assert forall|d: u8| 97 <= d <= 122 implies #[trigger] spec_has(self.0, d) == (c != d
                && spec_has(old(self).0, d)) by {
                lemma_remove_semantics(old(self).0, c, d);
            }
            assert(!spec_has(self.0, c));
        }
    }

    /// How many letters the set holds: the number of set bits.
    #[verifier::loop_isolation(false)]
    pub fn len(&self) -> (n: usize)
        ensures
            n == spec_ones(self.0, 32),
    {
        let mut n: usize = 0;
        let mut k: u32 = 0;
        proof {
            lemma_ones_bounded(self.0, 32);
        }
        while k < 32
            invariant
                k <= 32,
                n == spec_ones(self.0, k as int),
            decreases 32 - k,
        {
            proof {
                lemma_ones_bounded(self.0, k as int + 1);
            }
            if self.0 & (1u32 << k) != 0 {
                n = n + 1;
            }
            k = k + 1;
        }
        n
    }
}

/// Whether the bytes of `s[lo..hi)` are pairwise distinct.
pub open spec fn distinct_range(s: Seq<u8>, lo: int, hi: int) -> bool {
    forall|i: int, j: int| lo <= i < j < hi ==> s[i] != s[j]
}

/// Index of the end of the first run of `n` pairwise-distinct bytes: the
/// earliest `i` whose `n` bytes up to and including `i` are all different,
/// or nothing when no such run exists.
#[verifier::loop_isolation(false)]
#[verifier::rlimit(60)]
pub fn find_distinct_prefix_n(data: &[u8], n: usize) -> (r: Option<usize>)
    requires
        1 <= n,
        forall|k: int| 0 <= k < data@.len() ==> 97 <= #[trigger] data@[k] <= 122,
    ensures
        match r {
            Some(i) => {
                &&& n <= i + 1 <= data@.len()
                &&& distinct_range(data@, i + 1 - n, i + 1)
                &&& forall|e: int| n - 1 <= e < i ==> !#[trigger] distinct_range(data@, e + 1 - n, e + 1)
            },
            None => forall|e: int|
                n - 1 <= e < data@.len() ==> !#[trigger] distinct_range(data@, e + 1 - n, e + 1),
        },
{
    let mut window_start: usize = 0;
    let mut set = AsciiLowerBitSet::new();
    let mut i: usize = 0;
    proof {
        assert forall|d: u8| 97 <= d <= 122 implies !spec_has(set.0, d) by {
            lemma_empty_semantics(d);
        }
    }
    while i < data.len()
        invariant
            window_start <= i <= data@.len(),
            i - window_start < n,
            forall|d: u8|
                97 <= d <= 122 ==> (spec_has(set.0, d) <==> exists|k: int|
                    window_start <= k < i && data@[k] == d),
            distinct_range(data@, window_start as int, i as int),
            forall|w: int| 0 <= w < window_start ==> !#[trigger] distinct_range(data@, w, i as int),
            forall|e: int| n - 1 <= e < i ==> !#[trigger] distinct_range(data@, e + 1 - n, e + 1),
        decreases data@.len() - i,
    {
        let c = data[i];
        if !set.contains(c) {
            set.add(c);
            proof {
                assert forall|d: u8|
                    97 <= d <= 122 implies (spec_has(set.0, d) <==> exists|k: int|
                    window_start <= k < i + 1 && data@[k] == d) by {
                    if d == c {
                        assert(data@[i as int] == d);
                    }
                }
                assert forall|w: int|
                    0 <= w < window_start implies !#[trigger] distinct_range(data@, w, i + 1) by {
                    assert(!distinct_range(data@, w, i as int));
                }
            }
        } else {
            proof {
                assert(exists|k: int| window_start <= k < i && data@[k] == c);
            }
            while data[window_start] != data[i]
                invariant
                    window_start <= i < data@.len(),
                    data@[i as int] == c,
                    exists|k: int| window_start <= k < i && data@[k] == c,
                    forall|d: u8|
                        97 <= d <= 122 ==> (spec_has(set.0, d) <==> exists|k: int|
                            window_start <= k < i && data@[k] == d),
                    distinct_range(data@, window_start as int, i as int),
                decreases i - window_start,
            {
                let leaving = data[window_start];
                set.remove(leaving);
                proof {
                    assert forall|d: u8|
                        97 <= d <= 122 implies (spec_has(set.0, d) <==> exists|k: int|
                        window_start + 1 <= k < i && data@[k] == d) by {
                        if d == leaving {
                            if exists|k: int| window_start + 1 <= k < i && data@[k] == d {
                                let k = choose|k: int|
                                    window_start + 1 <= k < i && data@[k] == d;
                                assert(data@[window_start as int] == data@[k]);
                                assert(false);
                            }
                        } else {
                            if exists|k: int| window_start <= k < i && data@[k] == d {
                                let k = choose|k: int| window_start <= k < i && data@[k] == d;
                                assert(k != window_start);
                            }
                        }
                    }
                }
                window_start = window_start + 1;
            }
            proof {
                assert(data@[window_start as int] == data@[i as int]);
                assert forall|w: int|
                    0 <= w < window_start + 1 implies !#[trigger] distinct_range(data@, w, i
                    + 1) by {
                    assert(data@[window_start as int] == data@[i as int]);
                }
                assert forall|d: u8|
                    97 <= d <= 122 implies (spec_has(set.0, d) <==> exists|k: int|
                    window_start + 1 <= k < i + 1 && data@[k] == d) by {
                    if spec_has(set.0, d) {
                        let k = choose|k: int| window_start <= k < i && data@[k] == d;
                        if k == window_start {
                            assert(data@[i as int] == d);
                        }
                    } else {
                        if exists|k: int| window_start + 1 <= k < i + 1 && data@[k] == d {
                            let k = choose|k: int|
                                window_start + 1 <= k < i + 1 && data@[k] == d;
                            if k == i {
                                assert(data@[window_start as int] == d);
                            }
                        }
                    }
                }
                assert forall|a: int, b: int|
                    window_start + 1 <= a < b < i + 1 implies data@[a] != data@[b] by {
                    if b == i {
                        if data@[a] == data@[b] {
                            assert(data@[a] == data@[window_start as int]);
                        }
                    }
                }
            }
            window_start = window_start + 1;
        }
        proof {
            if i + 1 - window_start != n {
                assert forall|e: int|
                    n - 1 <= e < i + 1 implies !#[trigger] distinct_range(data@, e + 1 - n, e
                    + 1) by {
                    if e == i {
                        assert(!distinct_range(data@, i + 1 - n, i + 1));
                    }
                }
            }
        }
        if i + 1 - window_start == n {
            return Some(i);
        }
        i = i + 1;
    }
    None
}

/// The bit count over `k` bits is between 0 and `k`.
pub proof fn lemma_ones_bounded(s: u32, k: int)
    ensures
        0 <= spec_ones(s, k) <= vstd::math::max(k, 0),
    decreases k,
{
    if k > 0 {
        lemma_ones_bounded(s, k - 1);
    }
}

} // verus!
