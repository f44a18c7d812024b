use vstd::prelude::*;
use std::collections::HashSet;

use crate::color::{blue_of, green_of, red_of, Color16};

verus! {

broadcast use vstd::std_specs::hash::group_hash_axioms;

/// No free color is left for a transparency key: every packed value is used.
#[derive(Clone, Copy, Debug, PartialEq, Eq, Structural)]
pub enum AllocError {
    Exhausted,
}

/// How a transparency key is chosen among the unused colors.
#[derive(Clone, Copy, Debug, PartialEq, Eq, Structural)]
pub enum KeyPolicy {
    /// The first free one of eight distinct colors, else the first free
    /// color of the whole cube.
    Priority,
    /// The free color whose nearest used color is farthest away.
    Maximin,
}

/// The eight preferred key colors in order: magenta, cyan, yellow, red,
/// blue, green, white, black.
pub open spec fn priority_color(i: int) -> u16 {
    if i == 0 {
        0xf81f
    } else if i == 1 {
        0x07ff
    } else if i == 2 {
        0xffe0
    } else if i == 3 {
        0xf800
    } else if i == 4 {
        0x001f
    } else if i == 5 {
        0x07e0
    } else if i == 6 {
        0xffff
    } else {
        0x0000
    }
}

/// Every packed value is in `used`.
pub open spec fn exhausted(used: Set<u16>) -> bool {
    forall|v: u16| #[trigger] used.contains(v)
}

/// `c` is the key of the priority policy: the first free preferred color,
/// or, with all eight in use, the least free packed value (the scan of the
/// cube with red outermost and blue innermost meets the packed values in
/// ascending order).
pub open spec fn is_priority_key(used: Set<u16>, c: u16) -> bool {
    &&& !used.contains(c)
    &&& {
        ||| exists|i: int|
            0 <= i < 8 && #[trigger] priority_color(i) == c && forall|j: int|
                0 <= j < i ==> used.contains(#[trigger] priority_color(j))
        ||| (forall|j: int| 0 <= j < 8 ==> used.contains(#[trigger] priority_color(j))) && forall|
            v: u16,
        | v < c ==> #[trigger] used.contains(v)
    }
}

/// Squared distance of two packed colors over their channel levels.
pub open spec fn dist2(a: u16, b: u16) -> int {
    (red_of(a) - red_of(b)) * (red_of(a) - red_of(b)) + (green_of(a) - green_of(b)) * (green_of(a)
        - green_of(b)) + (blue_of(a) - blue_of(b)) * (blue_of(a) - blue_of(b))
}

/// The distance that stands for "no used color at all": beyond any `dist2`.
pub open spec fn far() -> int {
    6000
}

/// `d` is the distance from `c` to the nearest color of `used`.
pub open spec fn is_min_dist(used: Set<u16>, c: u16, d: int) -> bool {
    &&& forall|w: u16| used.contains(w) ==> dist2(c, w) >= d
    &&& {
        ||| exists|w: u16| used.contains(w) && dist2(c, w) == d
        ||| d == far() && forall|w: u16| !used.contains(w)
    }
}

/// The distance from `c` to the nearest color of `used`.
pub open spec fn min_dist(used: Set<u16>, c: u16) -> int {
    choose|d: int| is_min_dist(used, c, d)
}

/// `c` is the key of the maximin policy: free, no free color lies farther
/// from its nearest used color, and none before it in scan order lies as far.
pub open spec fn is_maximin_key(used: Set<u16>, c: u16) -> bool {
    &&& !used.contains(c)
    &&& forall|v: u16|
        !used.contains(v) ==> #[trigger] min_dist(used, v) <= min_dist(used, c) && (v < c ==> min_dist(
            used,
            v,
        ) < min_dist(used, c))
}

pub open spec fn is_key(used: Set<u16>, policy: KeyPolicy, c: u16) -> bool {
    match policy {
        KeyPolicy::Priority => is_priority_key(used, c),
        KeyPolicy::Maximin => is_maximin_key(used, c),
    }
}

proof fn lemma_min_dist(used: Set<u16>, c: u16, d: int)
    requires
        is_min_dist(used, c, d),
    ensures
        min_dist(used, c) == d,
{
    let m = min_dist(used, c);
    assert(is_min_dist(used, c, m));
    if exists|w: u16| used.contains(w) && dist2(c, w) == d {
        let w = choose|w: u16| used.contains(w) && dist2(c, w) == d;
        assert(m <= d);
        if exists|w2: u16| used.contains(w2) && dist2(c, w2) == m {
            let w2 = choose|w2: u16| used.contains(w2) && dist2(c, w2) == m;
            assert(d <= m);
        } else {
            assert(!used.contains(w));
        }
    } else {
        if exists|w2: u16| used.contains(w2) && dist2(c, w2) == m {
            let w2 = choose|w2: u16| used.contains(w2) && dist2(c, w2) == m;
            assert(!used.contains(w2));
        }
    }
}

/// The colors already given to opaque pixels of one image, from which a
/// transparency key is chosen.
pub struct BackgroundColor {
    used: HashSet<u16>,
    order: Vec<u16>,
}

impl View for BackgroundColor {
    type V = Set<u16>;

    closed spec fn view(&self) -> Set<u16> {
        self.used@
    }
}

fn priority(i: usize) -> (c: u16)
    requires
        i < 8,
    ensures
        c == priority_color(i as int),
{
    if i == 0 {
        0xf81f
    } else if i == 1 {
        0x07ff
    } else if i == 2 {
        0xffe0
    } else if i == 3 {
        0xf800
    } else if i == 4 {
        0x001f
    } else if i == 5 {
        0x07e0
    } else if i == 6 {
        0xffff
    } else {
        0x0000
    }
}

fn distance2(a: u16, b: u16) -> (d: u32)
    ensures
        d == dist2(a, b),
        d < far(),
{
    let (ar, ag, ab) = Color16(a).unpack();
    let (br, bg, bb) = Color16(b).unpack();
    let dr = ar as i32 - br as i32;
    let dg = ag as i32 - bg as i32;
    let db = ab as i32 - bb as i32;
    proof {
        crate::color::lemma_unpack_pack(a);
        crate::color::lemma_unpack_pack(b);
        assert(dr * dr <= 31 * 31 && dg * dg <= 63 * 63 && db * db <= 31 * 31) by (nonlinear_arith)
            requires
                -31 <= dr <= 31,
                -63 <= dg <= 63,
                -31 <= db <= 31,
        ;
        assert(0 <= dr * dr && 0 <= dg * dg && 0 <= db * db) by (nonlinear_arith);
    }
    (dr * dr + dg * dg + db * db) as u32
}

impl BackgroundColor {
    pub closed spec fn wf(&self) -> bool {
        forall|v: u16| self.used@.contains(v) <==> self.order@.contains(v)
    }

    /// An empty set of used colors.
    pub fn new() -> (s: BackgroundColor)
        ensures
            s.wf(),
            s@ == Set::<u16>::empty(),
    {
        let s = BackgroundColor { used: HashSet::new(), order: Vec::new() };
        assert(s.used@ =~= Set::<u16>::empty());
        s
    }

    /// Records that `color` is used.
    pub fn add(&mut self, color: Color16)
        requires
            old(self).wf(),
        ensures
            final(self).wf(),
            final(self)@ == old(self)@.insert(color.0),
    {
        if !self.used.contains(&color.0) {
            self.used.insert(color.0);
            self.order.push(color.0);
            proof {
                assert forall|v: u16| self.used@.contains(v) <==> self.order@.contains(v) by {
                    if v == color.0 {
                        assert(self.order@[self.order@.len() - 1] == v);
                    } else if old(self).order@.contains(v) {
                        let k = choose|k: int|
                            0 <= k < old(self).order@.len() && old(self).order@[k] == v;
                        assert(self.order@[k] == v);
                    } else if self.order@.contains(v) {
                        let k = choose|k: int| 0 <= k < self.order@.len() && self.order@[k] == v;
                        assert(old(self).order@[k] == v);
                    }
                }
            }
        } else {
            assert(old(self)@.insert(color.0) =~= old(self)@);
        }
    }

    /// Whether `color` is used.
    pub fn contains(&self, color: Color16) -> (b: bool)
        ensures
            b == self@.contains(color.0),
    {
        self.used.contains(&color.0)
    }

    /// The key of the priority policy: the first of magenta, cyan, yellow,
    /// red, blue, green, white and black that is not used; else the first
    /// unused color of the cube; an error when every color is used.
    pub fn find(&self) -> (r: Result<Color16, AllocError>)
        ensures
            match r {
                Ok(c) => is_priority_key(self@, c.0),
                Err(_) => exhausted(self@),
            },
    {
        let mut i: usize = 0;
        while i < 8
            invariant
                i <= 8,
                forall|j: int| 0 <= j < i ==> self@.contains(#[trigger] priority_color(j)),
            decreases 8 - i,
        {
            let c = priority(i);
            if !self.used.contains(&c) {
                assert(0 <= i < 8 && priority_color(i as int) == c);
                return Ok(Color16(c));
            }
            i += 1;
        }
        let mut v: u32 = 0;
        while v < 65536
            invariant
                v <= 65536,
                forall|j: int| 0 <= j < 8 ==> self@.contains(#[trigger] priority_color(j)),
                forall|w: u16| w < v ==> #[trigger] self@.contains(w),
            decreases 65536 - v,
        {
            if !self.used.contains(&(v as u16)) {
                return Ok(Color16(v as u16));
            }
            v += 1;
        }
        Err(AllocError::Exhausted)
    }

    /// The distance from `c` to the nearest used color.
    fn nearest(&self, c: u16) -> (d: u32)
        requires
            self.wf(),
        ensures
            is_min_dist(self@, c, d as int),
    {
        let mut m: u32 = 6000;
        let mut j: usize = 0;
        while j < self.order.len()
            invariant
                self.wf(),
                j <= self.order@.len(),
                forall|k: int| 0 <= k < j ==> dist2(c, #[trigger] self.order@[k]) >= m,
                m == far() || exists|k: int| 0 <= k < j && dist2(c, #[trigger] self.order@[k]) == m,
            decreases self.order@.len() - j,
        {
            let d = distance2(c, self.order[j]);
            if d < m {
                m = d;
            }
            j += 1;
        }
        proof {
            assert forall|w: u16| self@.contains(w) implies dist2(c, w) >= m by {
                let k = choose|k: int| 0 <= k < self.order@.len() && self.order@[k] == w;
            }
            if m == far() {
                assert forall|w: u16| !self@.contains(w) by {
                    if self@.contains(w) {
                        let k = choose|k: int| 0 <= k < self.order@.len() && self.order@[k] == w;
                        assert(dist2(c, w) < far()) by {
                            distance2_bound(c, w);
                        }
                    }
                }
            } else {
                let k = choose|k: int| 0 <= k < j && dist2(c, #[trigger] self.order@[k]) == m;
                assert(self.order@.contains(self.order@[k]));
            }
        }
        m
    }

    /// The key of the maximin policy: among the unused colors, the one whose
    /// nearest used color is farthest away, the first in scan order on a tie;
    /// an error when every color is used.
    pub fn find_maximin(&self) -> (r: Result<Color16, AllocError>)
        requires
            self.wf(),
        ensures
            match r {
                Ok(c) => is_maximin_key(self@, c.0),
                Err(_) => exhausted(self@),
            },
    {
        let mut found = false;
        let mut best: u16 = 0;
        let mut best_d: u32 = 0;
        let mut v: u32 = 0;
        while v < 65536
            invariant
                v <= 65536,
                self.wf(),
                !found ==> forall|w: u16| w < v ==> #[trigger] self@.contains(w),
                found ==> best < v && !self@.contains(best) && min_dist(self@, best) == best_d,
                found ==> forall|w: u16|
                    w < v && !self@.contains(w) ==> #[trigger] min_dist(self@, w) <= best_d && (w
                        < best ==> min_dist(self@, w) < best_d),
            decreases 65536 - v,
        {
            let c = v as u16;
            if !self.used.contains(&c) {
                let d = self.nearest(c);
                proof {
                    lemma_min_dist(self@, c, d as int);
                }
                if !found || d > best_d {
                    found = true;
                    best = c;
                    best_d = d;
                }
            }
            v += 1;
        }
        if found {
            Ok(Color16(best))
        } else {
            Err(AllocError::Exhausted)
        }
    }

    /// The key that `policy` picks.
    pub fn find_with(&self, policy: KeyPolicy) -> (r: Result<Color16, AllocError>)
        requires
            self.wf(),
        ensures
            match r {
                Ok(c) => is_key(self@, policy, c.0),
                Err(_) => exhausted(self@),
            },
    {
        match policy {
            KeyPolicy::Priority => self.find(),
            KeyPolicy::Maximin => self.find_maximin(),
        }
    }
}

proof fn distance2_bound(a: u16, b: u16)
    ensures
        0 <= dist2(a, b) < far(),
{
    crate::color::lemma_unpack_pack(a);
    crate::color::lemma_unpack_pack(b);
    let dr = red_of(a) - red_of(b);
    let dg = green_of(a) - green_of(b);
    let db = blue_of(a) - blue_of(b);
    assert(0 <= dr * dr <= 31 * 31 && 0 <= dg * dg <= 63 * 63 && 0 <= db * db <= 31 * 31)
        by (nonlinear_arith)
        requires
            -31 <= dr <= 31,
            -63 <= dg <= 63,
            -31 <= db <= 31,
    ;
}


/// With fewer than 65,536 used colors a key is owed, and under either policy
/// the key is never a used color.
pub proof fn lemma_key_is_free(used: Set<u16>)
    requires
        used.finite(),
        used.len() < 65536,
    ensures
        !exhausted(used),
        forall|policy: KeyPolicy, c: u16| #[trigger] is_key(used, policy, c) ==> !used.contains(c),
{
    if exhausted(used) {
        let f = |v: u16| v as int;
        let range = vstd::set_lib::set_int_range(0, 65536);
        assert(used.map(f) =~= range) by {
            assert forall|i: int| range.contains(i) implies used.map(f).contains(i) by {
                assert(used.contains(i as u16) && f(i as u16) == i);
            }
        }
        assert(vstd::relations::injective_on(f, used));
        vstd::set_lib::lemma_int_range(0, 65536);
        vstd::set_lib::lemma_map_size(used, range, f);
    }
}

/// With no used color the priority policy picks magenta.
pub proof fn lemma_empty_gives_magenta(c: u16)
    requires
        is_priority_key(Set::<u16>::empty(), c),
    ensures
        c == 0xf81f,
        c == priority_color(0),
{
    assert(!Set::<u16>::empty().contains(priority_color(0)));
    if exists|i: int|
        0 <= i < 8 && #[trigger] priority_color(i) == c && forall|j: int|
            0 <= j < i ==> Set::<u16>::empty().contains(#[trigger] priority_color(j)) {
        let i = choose|i: int|
            0 <= i < 8 && #[trigger] priority_color(i) == c && forall|j: int|
                0 <= j < i ==> Set::<u16>::empty().contains(#[trigger] priority_color(j));
        if i > 0 {
            assert(Set::<u16>::empty().contains(priority_color(0)));
        }
    }
}


/// Each policy picks at most one key for a given set of used colors.
pub proof fn lemma_key_unique(used: Set<u16>, policy: KeyPolicy, a: u16, b: u16)
    requires
        is_key(used, policy, a),
        is_key(used, policy, b),
    ensures
        a == b,
{
    match policy {
        KeyPolicy::Priority => {
            lemma_priority_key_unique(used, a, b);
            lemma_priority_key_unique(used, b, a);
        },
        KeyPolicy::Maximin => {
            if a < b {
                assert(min_dist(used, a) < min_dist(used, b));
                assert(min_dist(used, b) <= min_dist(used, a));
            } else if b < a {
                assert(min_dist(used, b) < min_dist(used, a));
                assert(min_dist(used, a) <= min_dist(used, b));
            }
        },
    }
}

proof fn lemma_priority_key_unique(used: Set<u16>, a: u16, b: u16)
    requires
        is_priority_key(used, a),
        is_priority_key(used, b),
    ensures
        a == b,
{
    let pa = exists|i: int|
        0 <= i < 8 && #[trigger] priority_color(i) == a && forall|j: int|
            0 <= j < i ==> used.contains(#[trigger] priority_color(j));
    let pb = exists|i: int|
        0 <= i < 8 && #[trigger] priority_color(i) == b && forall|j: int|
            0 <= j < i ==> used.contains(#[trigger] priority_color(j));
    if pa && pb {
        let i = choose|i: int|
            0 <= i < 8 && #[trigger] priority_color(i) == a && forall|j: int|
                0 <= j < i ==> used.contains(#[trigger] priority_color(j));
        let k = choose|k: int|
            0 <= k < 8 && #[trigger] priority_color(k) == b && forall|j: int|
                0 <= j < k ==> used.contains(#[trigger] priority_color(j));
        if i < k {
            assert(used.contains(priority_color(i)));
        } else if k < i {
            assert(used.contains(priority_color(k)));
        }
    } else if pa {
        let i = choose|i: int|
            0 <= i < 8 && #[trigger] priority_color(i) == a && forall|j: int|
                0 <= j < i ==> used.contains(#[trigger] priority_color(j));
        assert(used.contains(priority_color(i)));
    } else if pb {
        let k = choose|k: int|
            0 <= k < 8 && #[trigger] priority_color(k) == b && forall|j: int|
                0 <= j < k ==> used.contains(#[trigger] priority_color(j));
        assert(used.contains(priority_color(k)));
    } else {
        if a < b {
            assert(used.contains(a));
        } else if b < a {
            assert(used.contains(b));
        }
    }
}

} // verus!
