//! Row-height prefix sums, with a uniform-height fast path.
//!
//! A binary indexed tree answers "where does row `i` start" and "which row is at this
//! offset" in O(log n). Heights are whole physical pixels, so the sums are exact.

use std::sync::Arc;
use vstd::prelude::*;

verus! {

/// Sum of the heights of rows `0..n`: the top edge of row `n`.
pub open spec fn prefix(heights: Seq<u32>, n: int) -> nat
    decreases n,
{
    if n <= 0 {
        0
    } else {
        prefix(heights, n - 1) + heights[n - 1] as nat
    }
}

/// `row` is the last row that starts at or before `offset`.
pub open spec fn row_is_at(heights: Seq<u32>, offset: int, row: int) -> bool {
    &&& 0 <= row < heights.len()
    &&& prefix(heights, row) <= offset
    &&& row + 1 < heights.len() ==> offset < prefix(heights, row + 1)
}

/// A height, counted as one pixel where it is none.
pub open spec fn at_least_a_pixel(height: u32) -> u32 {
    if height < 1 {
        1
    } else {
        height
    }
}

/// `m` is the height of the shortest row, counted as one pixel where it has none or where there are
/// no rows.
pub open spec fn is_min_height(heights: Seq<u32>, m: u32) -> bool {
    if heights.len() == 0 {
        m == 1
    } else {
        &&& forall|i: int| 0 <= i < heights.len() ==> m <= at_least_a_pixel(#[trigger] heights[i])
        &&& exists|i: int| 0 <= i < heights.len() && m == at_least_a_pixel(#[trigger] heights[i])
    }
}

/// `i` without its lowest set bit. Node `i` of the tree covers rows `clear_low(i)..i`.
spec fn clear_low(i: usize) -> usize {
    if i == 0 {
        0
    } else {
        i & (i - 1) as usize
    }
}

/// The node that absorbs node `i` when the tree is built.
spec fn parent(i: usize) -> int {
    i + (i - clear_low(i))
}

/// What the nodes below `i` sum to, read off the tree.
spec fn tree_prefix(tree: Seq<u64>, i: int) -> nat
    decreases i,
{
    if i <= 0 || i >= tree.len() || i > usize::MAX {
        0
    } else if clear_low(i as usize) >= i {
        0
    } else {
        tree[i] as nat + tree_prefix(tree, clear_low(i as usize) as int)
    }
}

proof fn lemma_clear_low(i: usize)
    requires
        i > 0,
    ensures
        clear_low(i) < i,
{
    assert(i & ((i - 1) as usize) < i) by (bit_vector)
        requires
            i > 0,
    ;
}

/// Stepping back from `i` lands on `clear_low(i)` through nodes that `i` absorbs.
proof fn lemma_predecessor(i: usize)
    requires
        i > 0,
    ensures
        i - 1 == clear_low(i) || parent((i - 1) as usize) == i,
{
    lemma_clear_low(i);
    let j = (i - 1) as usize;
    if j > 0 {
        lemma_clear_low(j);
        assert(i & j == j || j + (j - (j & ((j - 1) as usize))) == i) by (bit_vector)
            requires
                i > 0,
                j == i - 1,
                j > 0,
        ;
    }
}

/// The node before `i` in its parent's chain.
proof fn lemma_chain(i: usize)
    requires
        i > 0,
        parent(i) <= usize::MAX,
    ensures
        ({
            let p = parent(i) as usize;
            let c = clear_low(i);
            &&& p > i
            &&& clear_low(p) <= c
            &&& c == clear_low(p) || parent(c) == p
        }),
{
    lemma_clear_low(i);
    let c = i & (i - 1) as usize;
    let p = (i + (i - c)) as usize;
    assert(p > i && p & ((p - 1) as usize) <= c) by (bit_vector)
        requires
            i > 0,
            c == i & ((i - 1) as usize),
            c < i,
            p == i + (i - c),
    ;
    if c > 0 {
        lemma_clear_low(c);
        assert(c == p & ((p - 1) as usize) || c + (c - (c & ((c - 1) as usize))) == p) by (bit_vector)
            requires
                i > 0,
                c > 0,
                c == i & ((i - 1) as usize),
                c < i,
                p == i + (i - c),
        ;
    } else {
        assert(p & ((p - 1) as usize) == 0) by (bit_vector)
            requires
                i > 0,
                0 == i & ((i - 1) as usize),
                p == i + i,
        ;
    }
}

/// No node strictly between `clear_low(i)` and `i` is absorbed past `i`.
proof fn lemma_between(i: usize, k: usize)
    requires
        clear_low(i) < k < i,
    ensures
        parent(k) <= i,
{
    lemma_clear_low(i);
    lemma_clear_low(k);
    assert(k + (k - (k & ((k - 1) as usize))) <= i) by (bit_vector)
        requires
            i & ((i - 1) as usize) < k,
            k < i,
            i > 0,
    ;
}

proof fn lemma_prefix_mono(h: Seq<u32>, a: int, b: int)
    requires
        a <= b,
    ensures
        prefix(h, a) <= prefix(h, b),
    decreases b - a,
{
    if a < b {
        lemma_prefix_mono(h, a, b - 1);
    }
}

/// Top edges never move up as the row index grows.
pub proof fn prefix_is_monotone(heights: Seq<u32>, a: int, b: int)
    requires
        a <= b,
    ensures
        prefix(heights, a) <= prefix(heights, b),
{
    lemma_prefix_mono(heights, a, b);
}

/// At most one row is at an offset.
pub proof fn row_at_is_unique(heights: Seq<u32>, offset: int, a: int, b: int)
    requires
        row_is_at(heights, offset, a),
        row_is_at(heights, offset, b),
    ensures
        a == b,
{
    if a < b {
        lemma_prefix_mono(heights, a + 1, b);
    } else if b < a {
        lemma_prefix_mono(heights, b + 1, a);
    }
}

/// Prefix sums over per-row heights. Its view is the heights themselves.
#[derive(Debug, PartialEq, Eq)]
pub struct Fenwick {
    /// One-based; `tree[0]` is unused.
    tree: Vec<u64>,
    len: usize,
    total: u64,
    /// The shortest row: what bounds how many rows can be on screen at once.
    min_height: u32,
}

impl View for Fenwick {
    type V = Seq<u32>;

    closed spec fn view(&self) -> Seq<u32> {
        Seq::new(
            self.len as nat,
            |i: int| (tree_prefix(self.tree@, i + 1) - tree_prefix(self.tree@, i)) as u32,
        )
    }
}

impl Clone for Fenwick {
    fn clone(&self) -> (result: Self)
        ensures
            result@ == self@,
    {
        proof {
            use_type_invariant(self);
        }
        let tree: Vec<u64> = self.tree.clone();
        assert(tree@ =~= self.tree@);
        Fenwick { tree, len: self.len, total: self.total, min_height: self.min_height }
    }
}

/// Node `i` holds the sum of the rows it covers, for every `i` up to `upto`.
spec fn nodes_hold(tree: Seq<u64>, h: Seq<u32>, upto: int) -> bool {
    forall|i: int|
        1 <= i <= upto ==> #[trigger] tree[i] == prefix(h, i) - prefix(
            h,
            clear_low(i as usize) as int,
        )
}

proof fn lemma_tree_prefix(tree: Seq<u64>, h: Seq<u32>, i: int)
    requires
        tree.len() == h.len() + 1,
        tree.len() <= usize::MAX,
        nodes_hold(tree, h, h.len() as int),
        0 <= i <= h.len(),
    ensures
        tree_prefix(tree, i) == prefix(h, i),
    decreases i,
{
    if i > 0 {
        lemma_clear_low(i as usize);
        let c = clear_low(i as usize) as int;
        lemma_tree_prefix(tree, h, c);
        lemma_prefix_mono(h, c, i);
    }
}

impl Fenwick {
    #[verifier::type_invariant]
    spec fn well_formed(self) -> bool {
        &&& self.tree@.len() == self.len + 1
        &&& self.len < usize::MAX
        &&& nodes_hold(self.tree@, self@, self.len as int)
        &&& self.total == prefix(self@, self.len as int)
        &&& is_min_height(self@, self.min_height)
    }

    /// Build from per-row heights in physical pixels, in linear time.
    pub fn from_heights(heights: &[u32]) -> (result: Self)
        requires
            heights@.len() < usize::MAX,
            prefix(heights@, heights@.len() as int) <= u64::MAX,
        ensures
            result@ == heights@,
    {
        let len: usize = heights.len();
        let ghost h = heights@;
        let mut tree: Vec<u64> = vec![0u64; len + 1];
        let mut total: u64 = 0;
        let mut shortest: u32 = 0;
        // How far into its rows each node has summed so far.
        let ghost mut reach: Seq<usize> = Seq::new((len + 1) as nat, |j: int| clear_low(j as usize));
        let mut i: usize = 0;
        proof {
            assert forall|j: int| 1 <= j <= len implies #[trigger] clear_low(j as usize) < j by {
                lemma_clear_low(j as usize);
            }
        }
        while i < len
            invariant
                i <= len,
                len < usize::MAX,
                h == heights@,
                h.len() == len,
                tree@.len() == len + 1,
                reach.len() == len + 1,
                prefix(h, len as int) <= u64::MAX,
                total == prefix(h, i as int),
                i == 0 ==> shortest == 0,
                i > 0 ==> exists|j: int| 0 <= j < i && h[j] == shortest,
                forall|j: int| 0 <= j < i ==> shortest <= h[j],
                forall|j: int| 0 <= j <= len ==> clear_low(j as usize) <= #[trigger] reach[j] <= j,
                forall|j: int|
                    1 <= j <= len ==> #[trigger] tree[j] == prefix(h, reach[j] as int) - prefix(
                        h,
                        clear_low(j as usize) as int,
                    ),
                forall|j: int| 1 <= j <= i ==> #[trigger] reach[j] == j,
                forall|j: int|
                    i < j <= len ==> #[trigger] reach[j] == clear_low(j as usize) || (parent(
                        reach[j],
                    ) == j && reach[j] <= i),
                forall|j: int, c: usize|
                    i < j <= len && reach[j] < c <= i ==> #[trigger] reach[j] == reach[j]
                        && #[trigger] parent(c) != j,
            decreases len - i,
        {
            let height: u32 = heights[i];
            let node: usize = i + 1;
            proof {
                lemma_clear_low(node);
                lemma_predecessor(node);
                lemma_prefix_mono(h, node as int, len as int);
                let c = clear_low(node) as int;
                lemma_prefix_mono(h, c, i as int);
                assert(reach[node as int] == i) by {
                    assert(reach[node as int] <= i);
                    if reach[node as int] < i {
                        assert(parent(i) == node);
                    }
                }
            }
            let own: u64 = tree[node] + height as u64;
            tree.set(node, own);
            proof {
                reach = reach.update(node as int, node);
            }
            let cleared: usize = node & (node - 1);
            let low: usize = node - cleared;
            if low <= len - node {
                let up: usize = node + low;
                proof {
                    lemma_chain(node);
                    let c = clear_low(node);
                    assert(parent(node) == up);
                    assert(reach[up as int] == c) by {
                        if reach[up as int] > c {
                            lemma_between(node, reach[up as int]);
                        }
                        if reach[up as int] < c {
                            assert(parent(c) == up);
                        }
                    }
                    lemma_prefix_mono(h, clear_low(up) as int, c as int);
                    lemma_prefix_mono(h, c as int, node as int);
                }
                let sum: u64 = tree[up] + own;
                tree.set(up, sum);
                proof {
                    reach = reach.update(up as int, node);
                    assert(clear_low(up) <= node);
                }
            }
            total = total + height as u64;
            if i == 0 || height < shortest {
                shortest = height;
                assert(h[i as int] == shortest);
            }
            i = i + 1;
        }
        let min_height: u32 = if shortest < 1 { 1 } else { shortest };
        proof {
            assert(nodes_hold(tree@, h, len as int));
            assert forall|j: int| 0 <= j < len implies (tree_prefix(tree@, j + 1) - tree_prefix(
                tree@,
                j,
            )) as u32 == h[j] by {
                lemma_tree_prefix(tree@, h, j);
                lemma_tree_prefix(tree@, h, j + 1);
            }
            let view = Seq::new(
                len as nat,
                |j: int| (tree_prefix(tree@, j + 1) - tree_prefix(tree@, j)) as u32,
            );
            assert(view =~= h);
        }
        Fenwick { tree, len, total, min_height }
    }

    /// The shortest row, at least one pixel.
    pub fn min_height(&self) -> (result: u32)
        ensures
            is_min_height(self@, result),
    {
        proof {
            use_type_invariant(self);
        }
        self.min_height
    }

    /// How many rows there are.
    pub fn len(&self) -> (result: usize)
        ensures
            result == self@.len(),
    {
        self.len
    }

    /// Whether there are no rows.
    pub fn is_empty(&self) -> (result: bool)
        ensures
            result == (self@.len() == 0),
    {
        self.len == 0
    }

    /// Total content height in physical pixels.
    pub fn total(&self) -> (result: u64)
        ensures
            result == prefix(self@, self@.len() as int),
    {
        proof {
            use_type_invariant(self);
        }
        self.total
    }

    /// The top edge of row `index`; past the end, the total height.
    pub fn offset_of(&self, index: usize) -> (result: u64)
        ensures
            result == prefix(self@, if index <= self@.len() { index as int } else { self@.len() as int }),
    {
        proof {
            use_type_invariant(self);
        }
        let ghost h = self@;
        let start: usize = if index <= self.len { index } else { self.len };
        let mut i: usize = start;
        let mut sum: u64 = 0;
        proof {
            lemma_prefix_mono(h, start as int, h.len() as int);
        }
        while i > 0
            invariant
                h == self@,
                i <= start <= self.len,
                self.len == h.len(),
                self.tree@.len() == self.len + 1,
                nodes_hold(self.tree@, h, self.len as int),
                sum + prefix(h, i as int) == prefix(h, start as int),
                prefix(h, start as int) <= u64::MAX,
            decreases i,
        {
            proof {
                lemma_clear_low(i);
                lemma_prefix_mono(h, clear_low(i) as int, i as int);
                assert(self.tree@[i as int] == prefix(h, i as int) - prefix(
                    h,
                    clear_low(i) as int,
                ));
            }
            sum = sum + self.tree[i];
            i = i & (i - 1);
        }
        sum
    }

    /// Height of one row; zero past the end.
    pub fn height_of(&self, index: usize) -> (result: u32)
        ensures
            result == if index < self@.len() { self@[index as int] } else { 0 },
    {
        proof {
            use_type_invariant(self);
            lemma_prefix_mono(self@, index as int, index as int + 1);
        }
        if index >= self.len {
            return 0;
        }
        (self.offset_of(index + 1) - self.offset_of(index)) as u32
    }

    /// The row containing content-space `offset`, and the offset's position within it.
    ///
    /// An offset past the end is in the last row: clamping the scroll is the caller's job.
    pub fn index_at(&self, offset: u64) -> (result: (usize, u64))
        ensures
            self@.len() == 0 ==> result == (0usize, 0u64),
            self@.len() > 0 ==> row_is_at(self@, offset as int, result.0 as int) && prefix(
                self@,
                result.0 as int,
            ) + result.1 == offset,
    {
        proof {
            use_type_invariant(self);
        }
        let ghost h = self@;
        if self.len == 0 {
            return (0, 0);
        }
        if offset >= self.total {
            let last: usize = self.len - 1;
            proof {
                lemma_prefix_mono(h, last as int, h.len() as int);
            }
            return (last, offset - self.offset_of(last));
        }
        let mut step: usize = 1;
        assert(1usize & 0usize == 0) by (bit_vector);
        while step <= self.len / 2
            invariant
                1 <= step <= self.len,
                step & (step - 1) as usize == 0,
            decreases self.len - step,
        {
            let ghost s = step;
            step = step * 2;
            assert(step & ((step - 1) as usize) == 0) by (bit_vector)
                requires
                    s >= 1,
                    s & ((s - 1) as usize) == 0,
                    step == s * 2,
            ;
        }
        let mut position: usize = 0;
        let mut remaining: u64 = offset;
        assert(0usize & (step | ((step - 1) as usize)) == 0) by (bit_vector);
        let ghost mut span: int = 2 * step;
        while step > 0
            invariant
                h == self@,
                self.len == h.len(),
                self.tree@.len() == self.len + 1,
                self.len < usize::MAX,
                nodes_hold(self.tree@, h, self.len as int),
                offset < prefix(h, h.len() as int),
                position <= self.len,
                step <= self.len,
                prefix(h, position as int) + remaining == offset,
                span == if step > 0 { 2 * step as int } else { 1int },
                step > 0 ==> step & (step - 1) as usize == 0,
                step > 0 ==> position & (step | (step - 1) as usize) == 0,
                position + span > self.len || offset < prefix(h, position + span),
            decreases step,
        {
            let ghost before = position;
            let ghost s = step;
            if step <= self.len - position {
                let next: usize = position + step;
                let value: u64 = self.tree[next];
                proof {
                    assert(next & ((next - 1) as usize) == position) by (bit_vector)
                        requires
                            step > 0,
                            step & ((step - 1) as usize) == 0,
                            position & (step | ((step - 1) as usize)) == 0,
                            next == position + step,
                    ;
                    assert(clear_low(next) == position);
                    assert(self.tree@[next as int] == prefix(h, next as int) - prefix(
                        h,
                        position as int,
                    ));
                }
                if value <= remaining {
                    position = next;
                    remaining = remaining - value;
                }
            }
            step = step / 2;
            proof {
                span = if step > 0 { 2 * step as int } else { 1int };
                assert(s == 1 || (s == step * 2 && step & ((step - 1) as usize) == 0)) by (bit_vector)
                    requires
                        s > 0,
                        s & ((s - 1) as usize) == 0,
                        step == s / 2,
                ;
                if step > 0 {
                    assert(position & (step | ((step - 1) as usize)) == 0) by (bit_vector)
                        requires
                            s > 0,
                            s & ((s - 1) as usize) == 0,
                            step == s / 2,
                            step > 0,
                            before & (s | ((s - 1) as usize)) == 0,
                            position == before || position == before + s,
                    ;
                }
            }
        }
        proof {
            if position == self.len {
                assert(false);
            }
        }
        (position, remaining)
    }
}

/// `row_count` rows, each `height` tall.
pub open spec fn uniform(height: u32, row_count: nat) -> Seq<u32> {
    Seq::new(row_count, |i: int| height)
}

/// How a source reports its row heights.
#[derive(Clone, Debug, PartialEq)]
pub enum Heights {
    /// Every row is this tall, in physical pixels.
    Uniform(u32),
    /// Each row has its own height.
    Variable(Arc<Fenwick>),
}

impl Heights {
    /// The heights of the first `row_count` rows: what the tree holds, or the one height
    /// repeated.
    pub open spec fn rows(self, row_count: nat) -> Seq<u32> {
        match self {
            Heights::Uniform(h) => uniform(h, row_count),
            Heights::Variable(tree) => tree@,
        }
    }

    /// The top edge of row `index`.
    pub open spec fn top(self, index: int) -> int {
        match self {
            Heights::Uniform(h) => h * index,
            Heights::Variable(tree) => prefix(
                tree@,
                if index <= tree@.len() {
                    index
                } else {
                    tree@.len() as int
                },
            ) as int,
        }
    }

    /// Total content height of `row_count` rows.
    pub fn total(&self, row_count: u64) -> (result: u64)
        requires
            self is Uniform ==> self->Uniform_0 * row_count <= u64::MAX,
        ensures
            result == match *self {
                Heights::Uniform(h) => h * row_count,
                Heights::Variable(tree) => prefix(tree@, tree@.len() as int) as int,
            },
    {
        match self {
            Heights::Uniform(h) => *h as u64 * row_count,
            Heights::Variable(tree) => tree.total(),
        }
    }

    /// The top edge of row `index`.
    pub fn offset_of(&self, index: u64) -> (result: u64)
        requires
            self is Uniform ==> self->Uniform_0 * index <= u64::MAX,
        ensures
            result == self.top(index as int),
    {
        match self {
            Heights::Uniform(h) => *h as u64 * index,
            Heights::Variable(tree) => {
                let len: usize = tree.len();
                if index >= len as u64 {
                    tree.offset_of(len)
                } else {
                    tree.offset_of(index as usize)
                }
            },
        }
    }

    /// The height of row `index`.
    pub fn height_of(&self, index: u64) -> (result: u32)
        ensures
            result == match *self {
                Heights::Uniform(h) => h,
                Heights::Variable(tree) => if index < tree@.len() {
                    tree@[index as int]
                } else {
                    0
                },
            },
    {
        match self {
            Heights::Uniform(h) => *h,
            Heights::Variable(tree) => if index >= tree.len() as u64 {
                0
            } else {
                tree.height_of(index as usize)
            },
        }
    }

    /// The shortest row, which is what bounds how many can be visible at once.
    pub fn min_height(&self) -> (result: u32)
        ensures
            match *self {
                Heights::Uniform(h) => result == if h < 1 { 1u32 } else { h },
                Heights::Variable(tree) => is_min_height(tree@, result),
            },
    {
        match self {
            Heights::Uniform(h) => if *h < 1 { 1 } else { *h },
            Heights::Variable(tree) => tree.min_height(),
        }
    }

    /// The row containing `offset`, and how far into it the offset falls.
    ///
    /// A uniform height of zero counts as one pixel, so that nothing divides by zero.
    pub fn index_at(&self, offset: u64, row_count: u64) -> (result: (u64, u64))
        ensures
            match *self {
                Heights::Uniform(h) => {
                    let tall = if h < 1 { 1 } else { h as int };
                    let last = if row_count == 0 { 0 } else { row_count - 1 };
                    let index = if offset as int / tall <= last { offset as int / tall } else { last };
                    result.0 == index && result.1 == offset - index * tall
                },
                Heights::Variable(tree) => {
                    &&& tree@.len() == 0 ==> result == (0u64, 0u64)
                    &&& tree@.len() > 0 ==> row_is_at(tree@, offset as int, result.0 as int)
                        && prefix(tree@, result.0 as int) + result.1 == offset
                },
            },
    {
        match self {
            Heights::Uniform(h) => {
                let tall: u64 = if *h < 1 { 1 } else { *h as u64 };
                let last: u64 = row_count.saturating_sub(1);
                let whole: u64 = offset / tall;
                let index: u64 = if whole <= last { whole } else { last };
                proof {
                    assert(index * tall <= offset) by (nonlinear_arith)
                        requires
                            index <= offset / tall,
                            tall >= 1,
                    ;
                }
                (index, offset - index * tall)
            },
            Heights::Variable(tree) => {
                let (index, within): (usize, u64) = tree.index_at(offset);
                (index as u64, within)
            },
        }
    }
}

proof fn lemma_uniform_prefix(height: u32, row_count: nat, n: int)
    requires
        0 <= n <= row_count,
    ensures
        prefix(uniform(height, row_count), n) == height * n,
    decreases n,
{
    if n > 0 {
        lemma_uniform_prefix(height, row_count, n - 1);
        assert(height * n == height * (n - 1) + height) by (nonlinear_arith);
    } else {
        assert(height * n == 0) by (nonlinear_arith)
            requires
                n == 0,
        ;
    }
}

/// The division that answers for a uniform height finds the row that a tree of equal
/// heights would, for every height of at least a pixel.
pub proof fn uniform_agrees_with_the_tree(height: u32, row_count: nat, offset: int)
    requires
        height >= 1,
        row_count >= 1,
        offset >= 0,
    ensures
        ({
            let last = row_count - 1;
            let index = if offset / height as int <= last { offset / height as int } else { last };
            &&& row_is_at(uniform(height, row_count), offset, index)
            &&& prefix(uniform(height, row_count), index) == height * index
        }),
{
    let tall = height as int;
    let last = row_count - 1;
    let index = if offset / tall <= last { offset / tall } else { last };
    assert(0 <= index) by (nonlinear_arith)
        requires
            offset >= 0,
            tall >= 1,
            index == offset / tall || index >= 0,
    ;
    lemma_uniform_prefix(height, row_count, index);
    assert(tall * index <= offset) by (nonlinear_arith)
        requires
            index <= offset / tall,
            tall >= 1,
    ;
    if index + 1 < row_count {
        lemma_uniform_prefix(height, row_count, index + 1);
        assert(offset < tall * (index + 1)) by (nonlinear_arith)
            requires
                index == offset / tall,
                tall >= 1,
        ;
    }
}

/// Looking up the top edge of a row finds that row again, unless the row has no height.
pub proof fn index_inverts_offset(heights: Seq<u32>, row: int, found: int)
    requires
        0 <= row < heights.len(),
        heights[row] > 0,
        row_is_at(heights, prefix(heights, row) as int, found),
    ensures
        found == row,
{
    assert(prefix(heights, row + 1) == prefix(heights, row) + heights[row]);
    row_at_is_unique(heights, prefix(heights, row) as int, found, row);
}

/// Every offset inside the content is inside the row found for it: at or below the row's
/// top edge, and above its bottom edge.
pub proof fn offset_is_inside_its_row(heights: Seq<u32>, offset: int, row: int)
    requires
        row_is_at(heights, offset, row),
        offset < prefix(heights, heights.len() as int),
    ensures
        prefix(heights, row) <= offset < prefix(heights, row) + heights[row],
{
    assert(prefix(heights, row + 1) == prefix(heights, row) + heights[row]);
}

/// A height is the distance between two top edges.
pub proof fn height_is_the_distance_between_tops(heights: Seq<u32>, row: int)
    requires
        0 <= row < heights.len(),
    ensures
        prefix(heights, row + 1) - prefix(heights, row) == heights[row],
{
}

/// Rows lie one under the other from the top of the content: the first starts at nothing, each starts where
/// the one above it ends, and past the last there is only the end of the content.
pub proof fn rows_lie_one_under_the_other(heights: Heights, index: int)
    requires
        0 <= index,
    ensures
        heights.top(0) == 0,
        heights matches Heights::Uniform(h) ==> heights.top(index + 1) - heights.top(index) == h,
        heights matches Heights::Variable(tree) ==> heights.top(index + 1) - heights.top(index) == (
        if index < tree@.len() {
            tree@[index] as int
        } else {
            0
        }),
{
    match heights {
        Heights::Uniform(h) => {
            assert(h * (index + 1) == h * index + h) by (nonlinear_arith);
            assert(h * 0 == 0) by (nonlinear_arith);
        },
        Heights::Variable(tree) => {},
    }
}

} // verus!
