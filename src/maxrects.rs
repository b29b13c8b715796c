//! Rectangle packing by maximal free rectangles: place a rectangle in the
//! best-fitting free area, then split and prune the free list.
use vstd::prelude::*;

verus! {

#[derive(Debug, Clone, Copy, PartialEq, Eq, Structural)]
pub struct Rect {
    pub x: u32,
    pub y: u32,
    pub width: u32,
    pub height: u32,
}

/// The rectangle's far edges are representable.
pub open spec fn rect_wf(r: Rect) -> bool {
    (r.x as int) + (r.width as int) <= u32::MAX && (r.y as int) + (r.height as int) <= u32::MAX
}

pub open spec fn contained(a: Rect, b: Rect) -> bool {
    &&& a.x >= b.x
    &&& a.y >= b.y
    &&& (a.x as int) + (a.width as int) <= (b.x as int) + (b.width as int)
    &&& (a.y as int) + (a.height as int) <= (b.y as int) + (b.height as int)
}

pub open spec fn overlaps(a: Rect, b: Rect) -> bool {
    &&& (a.x as int) < (b.x as int) + (b.width as int)
    &&& (a.x as int) + (a.width as int) > (b.x as int)
    &&& (a.y as int) < (b.y as int) + (b.height as int)
    &&& (a.y as int) + (a.height as int) > (b.y as int)
}

impl Rect {
    /// This rectangle lies inside `b`.
    pub fn is_contained_in(&self, b: &Rect) -> (r: bool)
        ensures
            r == contained(*self, *b),
    {
        self.x >= b.x && self.y >= b.y && self.x as u64 + self.width as u64 <= b.x as u64
            + b.width as u64 && self.y as u64 + self.height as u64 <= b.y as u64 + b.height as u64
    }

    /// This rectangle and `b` share some area.
    pub fn intersects(&self, b: &Rect) -> (r: bool)
        ensures
            r == overlaps(*self, *b),
    {
        (self.x as u64) < b.x as u64 + b.width as u64 && self.x as u64 + self.width as u64
            > b.x as u64 && (self.y as u64) < b.y as u64 + b.height as u64 && self.y as u64
            + self.height as u64 > b.y as u64
    }
}

pub open spec fn fits(r: Rect, width: u32, height: u32) -> bool {
    width <= r.width && height <= r.height
}

/// Area left over when a `width` by `height` rectangle is put in `r`.
pub open spec fn area_fit(r: Rect, width: u32, height: u32) -> int {
    (r.width as int) * (r.height as int) - (width as int) * (height as int)
}

/// The shorter of the two leftover sides.
pub open spec fn short_side_fit(r: Rect, width: u32, height: u32) -> int {
    let h = (r.width as int) - (width as int);
    let v = (r.height as int) - (height as int);
    if h <= v {
        h
    } else {
        v
    }
}

/// `a` is a strictly better fit than `b`: less area left over, or as much
/// and a shorter leftover side.
pub open spec fn better_fit(a: Rect, b: Rect, width: u32, height: u32) -> bool {
    area_fit(a, width, height) < area_fit(b, width, height) || (area_fit(a, width, height)
        == area_fit(b, width, height) && short_side_fit(a, width, height) < short_side_fit(
        b,
        width,
        height,
    ))
}

/// `free[i]` is the first of the best-fitting free rectangles among the first
/// `n`.
pub open spec fn best_among(free: Seq<Rect>, width: u32, height: u32, i: int, n: int) -> bool {
    &&& 0 <= i < n
    &&& fits(free[i], width, height)
    &&& forall|j: int|
        0 <= j < n && fits(#[trigger] free[j], width, height) ==> !better_fit(
            free[j],
            free[i],
            width,
            height,
        )
    &&& forall|j: int|
        0 <= j < i && fits(#[trigger] free[j], width, height) ==> better_fit(
            free[i],
            free[j],
            width,
            height,
        )
}

fn fit_scores(r: &Rect, width: u32, height: u32) -> (s: (u64, u64))
    requires
        fits(*r, width, height),
    ensures
        s.0 == area_fit(*r, width, height),
        s.1 == short_side_fit(*r, width, height),
{
    proof {
        let a = (r.width as int);
        let b = (r.height as int);
        assert(width as int * (height as int) <= a * b <= 0xffff_fffe_0000_0001) by (nonlinear_arith)
            requires
                0 <= width <= a <= 0xffff_ffff,
                0 <= height <= b <= 0xffff_ffff,
        ;
    }
    let area = r.width as u64 * r.height as u64 - width as u64 * height as u64;
    let h = (r.width - width) as u64;
    let v = (r.height - height) as u64;
    (area, if h <= v {
        h
    } else {
        v
    })
}

/// Where a `width` by `height` rectangle goes: at the corner of the free
/// rectangle that leaves the least area, ties broken by the shorter leftover
/// side, then by position in the list; nothing when none fits.
pub fn find_best_area(free: &[Rect], width: u32, height: u32) -> (r: Option<Rect>)
    ensures
        match r {
            Some(p) => exists|i: int|
                best_among(free@, width, height, i, free@.len() as int) && p == (Rect {
                    x: free@[i].x,
                    y: free@[i].y,
                    width,
                    height,
                }),
            None => forall|j: int| 0 <= j < free@.len() ==> !fits(#[trigger] free@[j], width, height),
        },
{
    let mut best: Option<usize> = None;
    let mut best_area: u64 = 0;
    let mut best_short: u64 = 0;
    let mut k: usize = 0;
    while k < free.len()
        invariant
            k <= free@.len(),
            match best {
                Some(b) => {
                    &&& best_among(free@, width, height, b as int, k as int)
                    &&& best_area == area_fit(free@[b as int], width, height)
                    &&& best_short == short_side_fit(free@[b as int], width, height)
                },
                None => forall|j: int| 0 <= j < k ==> !fits(#[trigger] free@[j], width, height),
            },
        decreases free@.len() - k,
    {
        let rect = &free[k];
        if width <= rect.width && height <= rect.height {
            let (area, short) = fit_scores(rect, width, height);
            match best {
                None => {
                    best = Some(k);
                    best_area = area;
                    best_short = short;
                },
                Some(b) => {
                    if area < best_area || (area == best_area && short < best_short) {
                        best = Some(k);
                        best_area = area;
                        best_short = short;
                    }
                },
            }
        }
        k = k + 1;
    }
    match best {
        Some(b) => Some(Rect { x: free[b].x, y: free[b].y, width, height }),
        None => None,
    }
}

/// The free rectangles that remain of `node` around `used`: above, below,
/// left and right of it, each where there is room.
pub open spec fn split_parts(node: Rect, used: Rect) -> Seq<Rect> {
    let across = (used.x as int) < (node.x as int) + (node.width as int) && (used.x as int)
        + (used.width as int) > (node.x as int);
    let along = (used.y as int) < (node.y as int) + (node.height as int) && (used.y as int)
        + (used.height as int) > (node.y as int);
    let top = if across && used.y > node.y && (used.y as int) < (node.y as int) + (node.height as int) {
        seq![Rect { height: (used.y - node.y) as u32, ..node }]
    } else {
        Seq::empty()
    };
    let bottom = if across && (used.y as int) + (used.height as int) < (node.y as int)
        + (node.height as int) {
        seq![
            Rect {
                y: (used.y + used.height) as u32,
                height: (node.y + node.height - (used.y + used.height)) as u32,
                ..node
            },
        ]
    } else {
        Seq::empty()
    };
    let left = if along && used.x > node.x && (used.x as int) < (node.x as int) + (node.width as int) {
        seq![Rect { width: (used.x - node.x) as u32, ..node }]
    } else {
        Seq::empty()
    };
    let right = if along && (used.x as int) + (used.width as int) < (node.x as int)
        + (node.width as int) {
        seq![
            Rect {
                x: (used.x + used.width) as u32,
                width: (node.x + node.width - (used.x + used.width)) as u32,
                ..node
            },
        ]
    } else {
        Seq::empty()
    };
    top + bottom + left + right
}

pub open spec fn part_ok(p: Rect, node: Rect, used: Rect) -> bool {
    rect_wf(p) && contained(p, node) && !overlaps(p, used)
}

pub open spec fn all_parts_ok(s: Seq<Rect>, node: Rect, used: Rect) -> bool {
    forall|k: int| 0 <= k < s.len() ==> part_ok(#[trigger] s[k], node, used)
}

proof fn lemma_concat_ok(a: Seq<Rect>, b: Seq<Rect>, node: Rect, used: Rect)
    requires
        all_parts_ok(a, node, used),
        all_parts_ok(b, node, used),
    ensures
        all_parts_ok(a + b, node, used),
{
    assert forall|k: int| 0 <= k < (a + b).len() implies part_ok(#[trigger] (a + b)[k], node, used) by {
        if k < a.len() {
            assert((a + b)[k] == a[k]);
        } else {
            assert((a + b)[k] == b[k - a.len()]);
        }
    }
}

/// Each part is a well-formed piece of `node` that `used` does not touch.
proof fn lemma_split_parts(node: Rect, used: Rect)
    requires
        rect_wf(node),
        rect_wf(used),
        overlaps(node, used),
    ensures
        all_parts_ok(split_parts(node, used), node, used),
{
    let across = ((used.x as int)) < (node.x as int) + (node.width as int) && (used.x as int)
        + (used.width as int) > (node.x as int);
    let along = ((used.y as int)) < (node.y as int) + (node.height as int) && (used.y as int)
        + (used.height as int) > (node.y as int);
    let top = if across && used.y > node.y && ((used.y as int)) < (node.y as int) + (node.height as int) {
        seq![Rect { height: (used.y - node.y) as u32, ..node }]
    } else {
        Seq::empty()
    };
    let bottom = if across && (used.y as int) + (used.height as int) < (node.y as int)
        + (node.height as int) {
        seq![
            Rect {
                y: (used.y + used.height) as u32,
                height: (node.y + node.height - (used.y + used.height)) as u32,
                ..node
            },
        ]
    } else {
        Seq::empty()
    };
    let left = if along && used.x > node.x && ((used.x as int)) < (node.x as int) + (node.width as int) {
        seq![Rect { width: (used.x - node.x) as u32, ..node }]
    } else {
        Seq::empty()
    };
    let right = if along && (used.x as int) + (used.width as int) < (node.x as int)
        + (node.width as int) {
        seq![
            Rect {
                x: (used.x + used.width) as u32,
                width: (node.x + node.width - (used.x + used.width)) as u32,
                ..node
            },
        ]
    } else {
        Seq::empty()
    };
    assert(split_parts(node, used) == top + bottom + left + right);
    if top.len() > 0 {
        assert(part_ok(top[0], node, used));
    }
    if bottom.len() > 0 {
        assert(part_ok(bottom[0], node, used));
    }
    if left.len() > 0 {
        assert(part_ok(left[0], node, used));
    }
    if right.len() > 0 {
        assert(part_ok(right[0], node, used));
    }
    lemma_concat_ok(top, bottom, node, used);
    lemma_concat_ok(top + bottom, left, node, used);
    lemma_concat_ok(top + bottom + left, right, node, used);
}

/// The point `(px, py)` lies in `r`.
pub open spec fn point_in(r: Rect, px: int, py: int) -> bool {
    &&& r.x as int <= px < r.x as int + r.width as int
    &&& r.y as int <= py < r.y as int + r.height as int
}

/// The point lies in some rectangle of `s`.
pub open spec fn covers(s: Seq<Rect>, px: int, py: int) -> bool {
    exists|m: int| 0 <= m < s.len() && point_in(s[m], px, py)
}

proof fn lemma_covers_concat(a: Seq<Rect>, b: Seq<Rect>, px: int, py: int)
    requires
        covers(a, px, py) || covers(b, px, py),
    ensures
        covers(a + b, px, py),
{
    if covers(a, px, py) {
        let m = choose|m: int| 0 <= m < a.len() && point_in(a[m], px, py);
        assert((a + b)[m] == a[m]);
    } else {
        let m = choose|m: int| 0 <= m < b.len() && point_in(b[m], px, py);
        assert((a + b)[a.len() + m] == b[m]);
    }
}

/// What `used` takes out of `node` is all the parts lose: every other point
/// of `node` lies in one of them.
proof fn lemma_split_covers(node: Rect, used: Rect, px: int, py: int)
    requires
        rect_wf(node),
        rect_wf(used),
        overlaps(node, used),
        point_in(node, px, py),
        !point_in(used, px, py),
    ensures
        covers(split_parts(node, used), px, py),
{
    let across = ((used.x as int)) < (node.x as int) + (node.width as int) && (used.x as int)
        + (used.width as int) > (node.x as int);
    let along = ((used.y as int)) < (node.y as int) + (node.height as int) && (used.y as int)
        + (used.height as int) > (node.y as int);
    let top = if across && used.y > node.y && ((used.y as int)) < (node.y as int) + (node.height as int) {
        seq![Rect { height: (used.y - node.y) as u32, ..node }]
    } else {
        Seq::empty()
    };
    let bottom = if across && (used.y as int) + (used.height as int) < (node.y as int)
        + (node.height as int) {
        seq![
            Rect {
                y: (used.y + used.height) as u32,
                height: (node.y + node.height - (used.y + used.height)) as u32,
                ..node
            },
        ]
    } else {
        Seq::empty()
    };
    let left = if along && used.x > node.x && ((used.x as int)) < (node.x as int) + (node.width as int) {
        seq![Rect { width: (used.x - node.x) as u32, ..node }]
    } else {
        Seq::empty()
    };
    let right = if along && (used.x as int) + (used.width as int) < (node.x as int)
        + (node.width as int) {
        seq![
            Rect {
                x: (used.x + used.width) as u32,
                width: (node.x + node.width - (used.x + used.width)) as u32,
                ..node
            },
        ]
    } else {
        Seq::empty()
    };
    assert(split_parts(node, used) == top + bottom + left + right);
    if py < used.y as int {
        assert(point_in(top[0], px, py));
        lemma_covers_concat(top, bottom, px, py);
        lemma_covers_concat(top + bottom, left, px, py);
        lemma_covers_concat(top + bottom + left, right, px, py);
    } else if py >= used.y as int + used.height as int {
        assert(point_in(bottom[0], px, py));
        lemma_covers_concat(top, bottom, px, py);
        lemma_covers_concat(top + bottom, left, px, py);
        lemma_covers_concat(top + bottom + left, right, px, py);
    } else if px < used.x as int {
        assert(point_in(left[0], px, py));
        lemma_covers_concat(top + bottom, left, px, py);
        lemma_covers_concat(top + bottom + left, right, px, py);
    } else {
        assert(point_in(right[0], px, py));
        lemma_covers_concat(top + bottom + left, right, px, py);
    }
}

/// Replacing an overlapped rectangle by its parts keeps every point that
/// `used` does not take.
proof fn lemma_step_covers(before: Seq<Rect>, i: int, used: Rect, px: int, py: int)
    requires
        0 <= i < before.len(),
        rect_wf(before[i]),
        rect_wf(used),
        overlaps(before[i], used),
        covers(before, px, py),
        !point_in(used, px, py),
    ensures
        covers(before.remove(i) + split_parts(before[i], used), px, py),
{
    let m = choose|m: int| 0 <= m < before.len() && point_in(before[m], px, py);
    let removed = before.remove(i);
    if m == i {
        lemma_split_covers(before[i], used, px, py);
        lemma_covers_concat(removed, split_parts(before[i], used), px, py);
    } else {
        let m2 = if m < i {
            m
        } else {
            m - 1
        };
        assert(removed[m2] == before[m]);
        lemma_covers_concat(removed, split_parts(before[i], used), px, py);
    }
}

/// Append to `free` what remains of `free_node` around `used`.
fn split_free_node(free: &mut Vec<Rect>, free_node: Rect, used: &Rect)
    requires
        rect_wf(free_node),
        rect_wf(*used),
    ensures
        final(free)@ == old(free)@ + split_parts(free_node, *used),
{
    let ghost start = free@;
    let across = used.x < free_node.x + free_node.width && used.x + used.width > free_node.x;
    let along = used.y < free_node.y + free_node.height && used.y + used.height > free_node.y;
    let ghost mut parts: Seq<Rect> = Seq::empty();
    if across && used.y > free_node.y && used.y < free_node.y + free_node.height {
        let node = Rect { height: used.y - free_node.y, ..free_node };
        free.push(node);
        proof {
            parts = parts.push(node);
        }
    }
    if across && used.y + used.height < free_node.y + free_node.height {
        let node = Rect {
            y: used.y + used.height,
            height: free_node.y + free_node.height - (used.y + used.height),
            ..free_node
        };
        free.push(node);
        proof {
            parts = parts.push(node);
        }
    }
    if along && used.x > free_node.x && used.x < free_node.x + free_node.width {
        let node = Rect { width: used.x - free_node.x, ..free_node };
        free.push(node);
        proof {
            parts = parts.push(node);
        }
    }
    if along && used.x + used.width < free_node.x + free_node.width {
        let node = Rect {
            x: used.x + used.width,
            width: free_node.x + free_node.width - (used.x + used.width),
            ..free_node
        };
        free.push(node);
        proof {
            parts = parts.push(node);
        }
    }
    assert(parts =~= split_parts(free_node, *used));
    assert(free@ =~= start + parts);
}

pub open spec fn all_wf(s: Seq<Rect>) -> bool {
    forall|k: int| 0 <= k < s.len() ==> rect_wf(#[trigger] s[k])
}

/// Every rectangle of `s` is also one of `t`.
#[verifier::opaque]
pub open spec fn drawn_from(s: Seq<Rect>, t: Seq<Rect>) -> bool {
    forall|k: int| 0 <= k < s.len() ==> t.contains(#[trigger] s[k])
}

/// Every rectangle of `s` lies inside one of `t`.
#[verifier::opaque]
pub open spec fn covered_by(s: Seq<Rect>, t: Seq<Rect>) -> bool {
    forall|k: int| 0 <= k < s.len() ==> inside_some(#[trigger] s[k], t)
}

/// `r` lies inside some rectangle of `t`.
pub open spec fn inside_some(r: Rect, t: Seq<Rect>) -> bool {
    exists|m: int| 0 <= m < t.len() && contained(r, t[m])
}

/// No rectangle of `s` overlaps `used`.
pub open spec fn clear_of(s: Seq<Rect>, used: Rect) -> bool {
    forall|k: int| 0 <= k < s.len() ==> !overlaps(#[trigger] s[k], used)
}

/// No rectangle of `s` lies inside another one of it.
pub open spec fn pruned(s: Seq<Rect>) -> bool {
    forall|a: int, b: int|
        0 <= a < s.len() && 0 <= b < s.len() && a != b ==> !contained(#[trigger] s[a], #[trigger] s[b])
}

/// The pairs whose first member is among the first `i` are not nested.
pub open spec fn pruned_below(s: Seq<Rect>, i: int) -> bool {
    forall|a: int, b: int|
        0 <= a < i && a < b < s.len() ==> !contained(#[trigger] s[a], #[trigger] s[b]) && !contained(
            s[b],
            s[a],
        )
}

proof fn lemma_remove_keeps(s: Seq<Rect>, idx: int, i: int, t: Seq<Rect>)
    requires
        0 <= idx < s.len(),
        0 <= i <= idx,
        pruned_below(s, i),
        drawn_from(s, t),
    ensures
        pruned_below(s.remove(idx), i),
        drawn_from(s.remove(idx), t),
{
    reveal(drawn_from);
    let r = s.remove(idx);
    assert forall|a: int, b: int| 0 <= a < i && a < b < r.len() implies !contained(
        #[trigger] r[a],
        #[trigger] r[b],
    ) && !contained(r[b], r[a]) by {
        let b2 = if b < idx {
            b
        } else {
            b + 1
        };
        assert(r[a] == s[a]);
        assert(r[b] == s[b2]);
    }
    assert forall|k: int| 0 <= k < r.len() implies t.contains(#[trigger] r[k]) by {
        let k2 = if k < idx {
            k
        } else {
            k + 1
        };
        assert(r[k] == s[k2]);
        assert(t.contains(s[k2]));
    }
}

proof fn lemma_remove_contained(s: Seq<Rect>, idx: int, other: int, t: Seq<Rect>)
    requires
        0 <= idx < s.len(),
        0 <= other < s.len(),
        other != idx,
        contained(s[idx], s[other]),
        covered_by(t, s),
    ensures
        covered_by(t, s.remove(idx)),
{
    reveal(covered_by);
    let r = s.remove(idx);
    assert forall|m: int| 0 <= m < t.len() implies inside_some(#[trigger] t[m], r) by {
        let k = choose|k: int| 0 <= k < s.len() && contained(t[m], s[k]);
        let k2 = if k == idx {
            other
        } else {
            k
        };
        assert(contained(t[m], s[k2]));
        let k3 = if k2 < idx {
            k2
        } else {
            k2 - 1
        };
        assert(r[k3] == s[k2]);
    }
}

proof fn lemma_self_cover(s: Seq<Rect>)
    ensures
        drawn_from(s, s),
        covered_by(s, s),
{
    reveal(drawn_from);
    reveal(covered_by);
    assert forall|k: int| 0 <= k < s.len() implies s.contains(#[trigger] s[k]) by {
        assert(s[k] == s[k]);
    }
    assert forall|m: int| 0 <= m < s.len() implies inside_some(#[trigger] s[m], s) by {
        assert(contained(s[m], s[m]));
    }
}

/// Drop every free rectangle that lies inside another.
fn prune_free_list(free: &mut Vec<Rect>)
    ensures
        drawn_from(final(free)@, old(free)@),
        covered_by(old(free)@, final(free)@),
        pruned(final(free)@),
{
    let ghost orig = free@;
    let mut i: usize = 0;
    proof {
        lemma_self_cover(orig);
    }
    while i < free.len()
        invariant
            i <= free@.len(),
            drawn_from(free@, orig),
            covered_by(orig, free@),
            pruned_below(free@, i as int),
        decreases free@.len() - i,
    {
        let mut j: usize = i + 1;
        let mut removed = false;
        let ghost len0 = free@.len();
        while j < free.len() && !removed
            invariant
                removed ==> free@.len() < len0 && i <= free@.len(),
                !removed ==> i < free@.len() <= len0 && i < j <= free@.len(),
                drawn_from(free@, orig),
                covered_by(orig, free@),
                pruned_below(free@, i as int),
                !removed ==> forall|b: int|
                    i < b < j ==> !contained(free@[i as int], #[trigger] free@[b]) && !contained(
                        free@[b],
                        free@[i as int],
                    ),
            decreases free@.len() - j + (if removed {
                0int
            } else {
                1int
            }),
        {
            if free[i].is_contained_in(&free[j]) {
                proof {
                    lemma_remove_keeps(free@, i as int, i as int, orig);
                    lemma_remove_contained(free@, i as int, j as int, orig);
                }
                free.remove(i);
                removed = true;
            } else if free[j].is_contained_in(&free[i]) {
                let ghost before = free@;
                proof {
                    lemma_remove_keeps(free@, j as int, i as int, orig);
                    lemma_remove_contained(free@, j as int, i as int, orig);
                }
                free.remove(j);
                assert forall|b: int| i < b < j implies !contained(free@[i as int], #[trigger] free@[b])
                    && !contained(free@[b], free@[i as int]) by {
                    assert(free@[b] == before[b]);
                    assert(free@[i as int] == before[i as int]);
                }
            } else {
                j = j + 1;
            }
        }
        if !removed {
            assert forall|a: int, b: int| 0 <= a < i + 1 && a < b < free@.len() implies !contained(
                #[trigger] free@[a],
                #[trigger] free@[b],
            ) && !contained(free@[b], free@[a]) by {
                if a < i {
                } else {
                    assert(a == i);
                }
            }
            i = i + 1;
        }
    }
    assert forall|a: int, b: int|
        0 <= a < free@.len() && 0 <= b < free@.len() && a != b implies !contained(
        #[trigger] free@[a],
        #[trigger] free@[b],
    ) by {
        if a < b {
        } else {
            assert(!contained(free@[a], free@[b]));
        }
    }
}

/// Take `rect` out of the free list: every free rectangle it overlaps is
/// replaced by what remains of it around `rect`, then nested rectangles are
/// dropped.
fn update_free_nodes(free: &mut Vec<Rect>, rect: &Rect)
    requires
        all_wf(old(free)@),
        rect_wf(*rect),
    ensures
        all_wf(final(free)@),
        clear_of(final(free)@, *rect),
        covered_by(final(free)@, old(free)@),
        pruned(final(free)@),
        forall|px: int, py: int|
            #[trigger] covers(old(free)@, px, py) && !point_in(*rect, px, py) ==> covers(
                final(free)@,
                px,
                py,
            ),
{
    reveal(drawn_from);
    reveal(covered_by);
    let ghost orig = free@;
    let mut size = free.len();
    let mut i: usize = 0;
    assert forall|k: int| 0 <= k < free@.len() implies inside_some(#[trigger] free@[k], orig) by {
        assert(contained(free@[k], orig[k]));
    }
    while i < size
        invariant
            i <= size <= free@.len(),
            all_wf(free@),
            rect_wf(*rect),
            forall|k: int| 0 <= k < i ==> !overlaps(#[trigger] free@[k], *rect),
            forall|k: int| size <= k < free@.len() ==> !overlaps(#[trigger] free@[k], *rect),
            covered_by(free@, orig),
            forall|px: int, py: int|
                #[trigger] covers(orig, px, py) && !point_in(*rect, px, py) ==> covers(free@, px, py),
        decreases size - i,
    {
        let free_rect = free[i];
        if free_rect.intersects(rect) {
            let ghost before = free@;
            free.remove(i);
            let ghost removed = free@;
            proof {
                reveal(covered_by);
                lemma_split_parts(free_rect, *rect);
            }
            split_free_node(free, free_rect, rect);
            let ghost parts = split_parts(free_rect, *rect);
            proof {
                assert(free@ == removed + parts);
                assert forall|k: int| 0 <= k < free@.len() implies rect_wf(#[trigger] free@[k]) by {
                    if k < removed.len() {
                        let k2 = if k < i { k } else { k + 1 };
                        assert(free@[k] == before[k2]);
                    } else {
                        assert(free@[k] == parts[k - removed.len()]);
                        assert(part_ok(parts[k - removed.len()], free_rect, *rect));
                    }
                }
                assert forall|k: int| 0 <= k < i implies !overlaps(#[trigger] free@[k], *rect) by {
                    assert(free@[k] == before[k]);
                }
                assert forall|k: int| size - 1 <= k < free@.len() implies !overlaps(
                    #[trigger] free@[k],
                    *rect,
                ) by {
                    if k < removed.len() {
                        assert(free@[k] == before[k + 1]);
                    } else {
                        assert(free@[k] == parts[k - removed.len()]);
                        assert(part_ok(parts[k - removed.len()], free_rect, *rect));
                    }
                }
                assert forall|k: int| 0 <= k < free@.len() implies inside_some(#[trigger] free@[k], orig) by {
                    if k < removed.len() {
                        let k2 = if k < i { k } else { k + 1 };
                        assert(free@[k] == before[k2]);
                        let m = choose|m: int| 0 <= m < orig.len() && contained(before[k2], orig[m]);
                        assert(contained(free@[k], orig[m]));
                    } else {
                        assert(free@[k] == parts[k - removed.len()]);
                        assert(part_ok(parts[k - removed.len()], free_rect, *rect));
                        assert(before[i as int] == free_rect);
                        let m = choose|m: int| 0 <= m < orig.len() && contained(before[i as int], orig[m]);
                        assert(contained(free@[k], orig[m]));
                    }
                }
            }
            proof {
                assert forall|px: int, py: int|
                    #[trigger] covers(orig, px, py) && !point_in(*rect, px, py) implies covers(
                    free@,
                    px,
                    py,
                ) by {
                    assert(before[i as int] == free_rect);
                    lemma_step_covers(before, i as int, *rect, px, py);
                }
            }
            size = size - 1;
        } else {
            i = i + 1;
        }
    }
    let ghost unpruned = free@;
    prune_free_list(free);
    reveal(covered_by);
    reveal(drawn_from);
    assert forall|px: int, py: int|
        #[trigger] covers(orig, px, py) && !point_in(*rect, px, py) implies covers(free@, px, py) by {
        let k = choose|k: int| 0 <= k < unpruned.len() && point_in(unpruned[k], px, py);
        assert(inside_some(unpruned[k], free@));
        let k2 = choose|k2: int| 0 <= k2 < free@.len() && contained(unpruned[k], free@[k2]);
        assert(point_in(free@[k2], px, py));
    }
    assert forall|k: int| 0 <= k < free@.len() implies rect_wf(#[trigger] free@[k]) && !overlaps(
        free@[k],
        *rect,
    ) && inside_some(free@[k], orig) by {
        assert(unpruned.contains(free@[k]));
        let k2 = choose|k2: int| 0 <= k2 < unpruned.len() && unpruned[k2] == free@[k];
        assert(rect_wf(unpruned[k2]));
        assert(!overlaps(unpruned[k2], *rect));
        let m = choose|m: int| 0 <= m < orig.len() && contained(unpruned[k2], orig[m]);
        assert(contained(free@[k], orig[m]));
    }
}

/// Place a `width` by `height` rectangle in the best-fitting free area, and
/// take the area it occupies out of the free list. Nothing changes when no
/// free rectangle is large enough.
pub fn place_rect(free: &mut Vec<Rect>, width: u32, height: u32) -> (r: Option<Rect>)
    requires
        all_wf(old(free)@),
    ensures
        match r {
            Some(p) => {
                &&& exists|i: int|
                    best_among(old(free)@, width, height, i, old(free)@.len() as int) && p == (
                    Rect { x: old(free)@[i].x, y: old(free)@[i].y, width, height })
                &&& all_wf(final(free)@)
                &&& clear_of(final(free)@, p)
                &&& covered_by(final(free)@, old(free)@)
                &&& pruned(final(free)@)
                &&& forall|px: int, py: int|
                    #[trigger] covers(old(free)@, px, py) && !point_in(p, px, py) ==> covers(
                        final(free)@,
                        px,
                        py,
                    )
            },
            None => {
                &&& forall|j: int|
                    0 <= j < old(free)@.len() ==> !fits(#[trigger] old(free)@[j], width, height)
                &&& final(free)@ == old(free)@
            },
        },
{
    let rect = find_best_area(free.as_slice(), width, height);
    match rect {
        Some(x) => {
            proof {
                let i = choose|i: int|
                    best_among(free@, width, height, i, free@.len() as int) && x == (Rect {
                        x: free@[i].x,
                        y: free@[i].y,
                        width,
                        height,
                    });
                assert(rect_wf(free@[i]));
            }
            update_free_nodes(free, &x);
        },
        None => {},
    }
    rect
}

} // verus!
