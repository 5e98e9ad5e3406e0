//! Tag sets: each pane carries a set of up to 64 tags, stored as a
//! bitmask. Views filter pane visibility by tag intersection: a pane
//! appears in a view when it has any of the view's tags.

use vstd::prelude::*;

verus! {

/// Bitmask representing a set of tags (supports up to 64 tags).
#[derive(Debug, Clone, Copy, PartialEq, Eq, Structural)]
pub struct TagSet(pub u64);

/// The tags of `x` below position `k`, in increasing order.
pub open spec fn tag_seq(x: u64, k: int) -> Seq<u8>
    decreases k,
{
    if k <= 0 {
        Seq::empty()
    } else {
        tag_seq(x, k - 1) + (if x & (1u64 << ((k - 1) as u64)) != 0 {
            seq![(k - 1) as u8]
        } else {
            Seq::empty()
        })
    }
}

/// How many of the bits below position `k` are set in `x`.
pub open spec fn popcount(x: u64, k: int) -> int
    decreases k,
{
    if k <= 0 {
        0
    } else {
        popcount(x, k - 1) + (if x & (1u64 << ((k - 1) as u64)) != 0 {
            1int
        } else {
            0int
        })
    }
}

impl TagSet {
    /// The empty tag set.
    pub fn none() -> (r: TagSet)
        ensures
            r.0 == 0,
    {
        TagSet(0)
    }

    /// The set holding every tag.
    pub fn all() -> (r: TagSet)
        ensures
            r.0 == 0xFFFF_FFFF_FFFF_FFFFu64,
    {
        TagSet(0xFFFF_FFFF_FFFF_FFFF)
    }

    /// The set with a single tag (0-indexed; `tag` must be below 64).
    pub fn single(tag: u8) -> (r: TagSet)
        requires
            tag < 64,
        ensures
            r.0 == (1u64 << tag),
    {
        TagSet(1u64 << tag)
    }

    /// Whether this set holds `tag`.
    pub fn contains(&self, tag: u8) -> (r: bool)
        ensures
            r == (tag < 64 && (self.0 & (1u64 << tag)) != 0),
    {
        tag < 64 && (self.0 & (1u64 << tag)) != 0
    }

    /// Add `tag` to this set (tags of 64 and above are ignored).
    pub fn add(&mut self, tag: u8)
        ensures
            final(self).0 == (if tag < 64 {
                old(self).0 | (1u64 << tag)
            } else {
                old(self).0
            }),
    {
        if tag < 64 {
            self.0 = self.0 | (1u64 << tag);
        }
    }

    /// Remove `tag` from this set.
    pub fn remove(&mut self, tag: u8)
        ensures
            final(self).0 == (if tag < 64 {
                old(self).0 & !(1u64 << tag)
            } else {
                old(self).0
            }),
    {
        if tag < 64 {
            self.0 = self.0 & !(1u64 << tag);
        }
    }

    /// Toggle `tag` in this set.
    pub fn toggle(&mut self, tag: u8)
        ensures
            final(self).0 == (if tag < 64 {
                old(self).0 ^ (1u64 << tag)
            } else {
                old(self).0
            }),
    {
        if tag < 64 {
            self.0 = self.0 ^ (1u64 << tag);
        }
    }

    /// Whether this set shares any tag with `other`.
    pub fn intersects(&self, other: TagSet) -> (r: bool)
        ensures
            r == ((self.0 & other.0) != 0),
    {
        (self.0 & other.0) != 0
    }

    /// Whether this set holds no tag.
    pub fn is_empty(&self) -> (r: bool)
        ensures
            r == (self.0 == 0),
    {
        self.0 == 0
    }

    /// The tags of this set, in increasing order.
    pub fn iter(&self) -> (r: Vec<u8>)
        ensures
            r@ == tag_seq(self.0, 64),
    {
        let mut out: Vec<u8> = Vec::new();
        let mut t: u8 = 0;
        while t < 64
            invariant
                t <= 64,
                out@ =~= tag_seq(self.0, t as int),
            decreases 64 - t,
        {
            if self.0 & (1u64 << t) != 0 {
                out.push(t);
            }
            proof {
                assert(out@ =~= tag_seq(self.0, t as int + 1));
            }
            t = t + 1;
        }
        out
    }

    /// How many tags this set holds.
    pub fn count(&self) -> (r: u32)
        ensures
            r == popcount(self.0, 64),
    {
        let mut n: u32 = 0;
        let mut t: u8 = 0;
        while t < 64
            invariant
                t <= 64,
                n == popcount(self.0, t as int),
                n <= t,
            decreases 64 - t,
        {
            if self.0 & (1u64 << t) != 0 {
                n = n + 1;
            }
            t = t + 1;
        }
        n
    }
}

impl Default for TagSet {
    /// The empty tag set.
    fn default() -> (r: TagSet)
        ensures
            r.0 == 0,
    {
        TagSet(0)
    }
}

} // verus!
