use vstd::prelude::*;
use crate::world::{
    Dir, TOTAL_LIMIT, combine, compact, line_of_cell, line_pos, line_values, merge_pairs, move_cells,
    nonzeros, rank_of_cell, seq_sum, slide, valid_tile, valid_tiles, wf_cells, World,
};

verus! {

/// A board stored as 16 values, row by row; zero is an empty cell.
#[derive(Copy, Clone, Debug)]
pub struct LineWorld16 {
    pub data: [i32; 16],
}

/// Walks the four cells of one line, leading edge first.
pub struct Iter16 {
    start: i32,
    step: i32,
    off: i32,
    count: i32,
}

impl Iter16 {
    /// Index of the `n`-th cell of the walked line.
    pub closed spec fn pos(&self, n: int) -> int {
        self.start + n * self.step + self.off
    }

    pub closed spec fn wf(&self) -> bool {
        &&& -4 <= self.step <= 4
        &&& 0 <= self.start <= 12
        &&& 0 <= self.off <= 12
    }

    pub closed spec fn count(&self) -> int {
        self.count as int
    }

    /// A walk over line `off` for direction `dir`, starting at its `skip`-th cell.
    pub fn new(dir: Dir, off: i32, skip: i32) -> (r: Iter16)
        requires
            0 <= off < 4,
        ensures
            forall|n: int| #[trigger] r.pos(n) == line_pos(dir, off as int, n),
            r.count() == skip,
            r.wf(),
    {
        let r = match dir {
            Dir::Up => Iter16 { start: 0, step: 4, off: off, count: skip },
            Dir::Down => Iter16 { start: 12, step: -4, off: off, count: skip },
            Dir::Left => Iter16 { start: 0, step: 1, off: off * 4, count: skip },
            Dir::Right => Iter16 { start: 3, step: -1, off: off * 4, count: skip },
        };
        assert forall|n: int| #[trigger] r.pos(n) == line_pos(dir, off as int, n) by {
            match dir {
                Dir::Up => assert(n * 4 + off == r.start + n * r.step + r.off),
                Dir::Down => {
                    let st = r.step as int;
                    assert(n * st == -(n * 4)) by (nonlinear_arith)
                        requires
                            st == -4,
                    ;
                },
                Dir::Left => assert(off * 4 + n == r.start + n * r.step + r.off),
                Dir::Right => {
                    let st = r.step as int;
                    assert(n * st == -n) by (nonlinear_arith)
                        requires
                            st == -1,
                    ;
                },
            }
        }
        r
    }

    /// The next (rank, cell index) pair of the line, if any is left.
    pub fn next(&mut self) -> (r: Option<(i32, usize)>)
        requires
            0 <= old(self).count(),
            old(self).wf(),
            forall|n: int| 0 <= n < 4 ==> 0 <= #[trigger] old(self).pos(n) < 16,
        ensures
            final(self).wf(),
            forall|n: int| #[trigger] final(self).pos(n) == old(self).pos(n),
            old(self).count() < 4 ==> r == Some((old(self).count() as i32, old(self).pos(old(self).count()) as usize))
                && final(self).count() == old(self).count() + 1,
            old(self).count() >= 4 ==> r.is_none() && final(self).count() == old(self).count(),
    {
        if self.count < 4 {
            assert(0 <= self.pos(self.count as int) < 16);
            let pair = (self.count, (self.start + self.count * self.step + self.off) as usize);
            self.count = self.count + 1;
            Some(pair)
        } else {
            None
        }
    }
}

/// The cell indices of line `line` for direction `dir`, leading edge first.
fn line_positions(dir: Dir, line: i32) -> (p: [usize; 4])
    requires
        0 <= line < 4,
    ensures
        forall|n: int| 0 <= n < 4 ==> p@[n] == line_pos(dir, line as int, n),
{
    proof {
        lemma_line_geometry(dir, line as int);
    }
    let mut it = Iter16::new(dir, line, 0);
    let mut p: [usize; 4] = [0; 4];
    let mut k: usize = 0;
    while k < 4
        invariant
            k <= 4,
            it.count() == k,
            it.wf(),
            forall|n: int| 0 <= n < 4 ==> 0 <= #[trigger] line_pos(dir, line as int, n) < 16,
            forall|n: int| #[trigger] it.pos(n) == line_pos(dir, line as int, n),
            forall|n: int| 0 <= n < k ==> p@[n] == line_pos(dir, line as int, n),
        decreases 4 - k,
    {
        match it.next() {
            Some((_, i)) => {
                p[k] = i;
            },
            None => {},
        }
        k = k + 1;
    }
    p
}

pub proof fn lemma_sum_update(s: Seq<int>, i: int, v: int)
    requires
        0 <= i < s.len(),
    ensures
        seq_sum(s.update(i, v)) == seq_sum(s) - s[i] + v,
    decreases s.len(),
{
    if i == s.len() - 1 {
        assert(s.update(i, v).drop_last() =~= s.drop_last());
    } else {
        lemma_sum_update(s.drop_last(), i, v);
        assert(s.update(i, v).drop_last() =~= s.drop_last().update(i, v));
    }
}

proof fn lemma_sum_nonneg(s: Seq<int>)
    requires
        forall|i: int| 0 <= i < s.len() ==> s[i] >= 0,
    ensures
        seq_sum(s) >= 0,
    decreases s.len(),
{
    if s.len() > 0 {
        lemma_sum_nonneg(s.drop_last());
    }
}

/// Two distinct cells of a board of non-negative values hold at most its total.
proof fn lemma_pair_le_sum(s: Seq<int>, i: int, j: int)
    requires
        0 <= i < s.len(),
        0 <= j < s.len(),
        i != j,
        forall|k: int| 0 <= k < s.len() ==> s[k] >= 0,
    ensures
        s[i] + s[j] <= seq_sum(s),
{
    let t = s.update(i, 0);
    lemma_sum_update(s, i, 0);
    lemma_sum_update(t, j, 0);
    lemma_sum_nonneg(t.update(j, 0));
}

pub proof fn lemma_line_geometry(dir: Dir, l: int)
    requires
        0 <= l < 4,
    ensures
        forall|n: int| 0 <= n < 4 ==> 0 <= #[trigger] line_pos(dir, l, n) < 16
            && line_of_cell(dir, line_pos(dir, l, n)) == l
            && rank_of_cell(dir, line_pos(dir, l, n)) == n,
        forall|k: int| 0 <= k < 16 && #[trigger] line_of_cell(dir, k) == l ==>
            0 <= rank_of_cell(dir, k) < 4 && line_pos(dir, l, rank_of_cell(dir, k)) == k,
{
}

pub proof fn lemma_nonzeros4(a: int, b: int, c: int, d: int)
    ensures
        nonzeros(seq![a, b, c, d]) == (if a != 0 { seq![a] } else { Seq::<int>::empty() }) + (
        if b != 0 { seq![b] } else { Seq::<int>::empty() }) + (if c != 0 { seq![c] } else {
            Seq::<int>::empty()
        }) + (if d != 0 { seq![d] } else { Seq::<int>::empty() }),
{
    assert(seq![a, b, c, d].drop_first() =~= seq![b, c, d]);
    assert(seq![b, c, d].drop_first() =~= seq![c, d]);
    assert(seq![c, d].drop_first() =~= seq![d]);
    assert(seq![d].drop_first() =~= Seq::<int>::empty());
    reveal_with_fuel(nonzeros, 5);
    let e = Seq::<int>::empty();
    assert(nonzeros(seq![a, b, c, d]) =~= (if a != 0 { seq![a] } else { e }) + (if b != 0 { seq![b] } else { e }) + (if c != 0 { seq![c] } else { e }) + (if d != 0 { seq![d] } else { e }));
}

proof fn lemma_merge4(x0: int, x1: int, x2: int, x3: int)
    ensures
        merge_pairs(seq![x0, x1, x2, x3]) == (if x0 == x1 {
            if x2 == x3 { seq![2 * x0, 0, 2 * x2, 0] } else { seq![2 * x0, 0, x2, x3] }
        } else if x1 == x2 {
            seq![x0, 2 * x1, 0, x3]
        } else if x2 == x3 {
            seq![x0, x1, 2 * x2, 0]
        } else {
            seq![x0, x1, x2, x3]
        }),
{
    let s4 = seq![x0, x1, x2, x3];
    assert(s4.subrange(2, 4) =~= seq![x2, x3]);
    assert(s4.drop_first() =~= seq![x1, x2, x3]);
    assert(seq![x1, x2, x3].subrange(2, 3) =~= seq![x3]);
    assert(seq![x1, x2, x3].drop_first() =~= seq![x2, x3]);
    assert(seq![x2, x3].subrange(2, 2) =~= Seq::<int>::empty());
    assert(seq![x2, x3].drop_first() =~= seq![x3]);
    reveal_with_fuel(merge_pairs, 4);
    assert(merge_pairs(s4) =~= (if x0 == x1 {
        if x2 == x3 { seq![2 * x0, 0, 2 * x2, 0] } else { seq![2 * x0, 0, x2, x3] }
    } else if x1 == x2 {
        seq![x0, 2 * x1, 0, x3]
    } else if x2 == x3 {
        seq![x0, x1, 2 * x2, 0]
    } else {
        seq![x0, x1, x2, x3]
    }));
}

pub proof fn lemma_combine_short(t: Seq<int>)
    requires
        t.len() <= 4,
    ensures
        t.len() == 0 ==> combine(t) == t,
        t.len() == 1 ==> combine(t) == t,
        t.len() == 2 ==> combine(t) == (if t[0] == t[1] { seq![2 * t[0]] } else { t }),
        t.len() == 3 ==> combine(t) == (if t[0] == t[1] {
            seq![2 * t[0], t[2]]
        } else if t[1] == t[2] {
            seq![t[0], 2 * t[1]]
        } else {
            t
        }),
        t.len() == 4 ==> combine(t) == (if t[0] == t[1] {
            if t[2] == t[3] { seq![2 * t[0], 2 * t[2]] } else { seq![2 * t[0], t[2], t[3]] }
        } else if t[1] == t[2] {
            seq![t[0], 2 * t[1], t[3]]
        } else if t[2] == t[3] {
            seq![t[0], t[1], 2 * t[2]]
        } else {
            t
        }),
{
    reveal_with_fuel(combine, 4);
    if t.len() == 2 {
        assert(t.subrange(2, 2) =~= Seq::<int>::empty());
        assert(t.drop_first() =~= seq![t[1]]);
        assert(combine(t) =~= (if t[0] == t[1] { seq![2 * t[0]] } else { t }));
    } else if t.len() == 3 {
        assert(t.subrange(2, 3) =~= seq![t[2]]);
        assert(t.drop_first() =~= seq![t[1], t[2]]);
        assert(seq![t[1], t[2]].subrange(2, 2) =~= Seq::<int>::empty());
        assert(seq![t[1], t[2]].drop_first() =~= seq![t[2]]);
        assert(combine(t) =~= (if t[0] == t[1] {
            seq![2 * t[0], t[2]]
        } else if t[1] == t[2] {
            seq![t[0], 2 * t[1]]
        } else {
            t
        }));
    } else if t.len() == 4 {
        assert(t.subrange(2, 4) =~= seq![t[2], t[3]]);
        assert(t.drop_first() =~= seq![t[1], t[2], t[3]]);
        let u = seq![t[1], t[2], t[3]];
        assert(u.subrange(2, 3) =~= seq![t[3]]);
        assert(u.drop_first() =~= seq![t[2], t[3]]);
        assert(seq![t[2], t[3]].subrange(2, 2) =~= Seq::<int>::empty());
        assert(seq![t[2], t[3]].drop_first() =~= seq![t[3]]);
        assert(combine(t) =~= (if t[0] == t[1] {
            if t[2] == t[3] { seq![2 * t[0], 2 * t[2]] } else { seq![2 * t[0], t[2], t[3]] }
        } else if t[1] == t[2] {
            seq![t[0], 2 * t[1], t[3]]
        } else if t[2] == t[3] {
            seq![t[0], t[1], 2 * t[2]]
        } else {
            t
        }));
    }
}

proof fn lemma_slide4(a: int, b: int, c: int, d: int)
    ensures
        compact(merge_pairs(compact(seq![a, b, c, d]))) == slide(seq![a, b, c, d]),
{
    let s = seq![a, b, c, d];
    lemma_nonzeros4(a, b, c, d);
    let t = nonzeros(s);
    assert(t.len() <= 4);
    lemma_combine_short(t);
    let p = compact(s);
    assert(p.len() == 4);
    assert(p =~= seq![p[0], p[1], p[2], p[3]]);
    lemma_merge4(p[0], p[1], p[2], p[3]);
    let m = merge_pairs(p);
    assert(m =~= seq![m[0], m[1], m[2], m[3]]);
    lemma_nonzeros4(m[0], m[1], m[2], m[3]);
    assert(compact(m) =~= slide(s));
}

impl LineWorld16 {
    /// The four values of line `line`, leading edge first.
    fn load_line(&self, dir: Dir, line: i32, p: [usize; 4]) -> (v: [i32; 4])
        requires
            0 <= line < 4,
            forall|n: int| 0 <= n < 4 ==> p@[n] == line_pos(dir, line as int, n),
        ensures
            forall|n: int| 0 <= n < 4 ==> v@[n] == self.cells()[line_pos(dir, line as int, n)],
    {
        proof {
            lemma_line_geometry(dir, line as int);
        }
        [self.data[p[0]], self.data[p[1]], self.data[p[2]], self.data[p[3]]]
    }

    /// Writes four values into line `line`, leading edge first.
    fn store_line(&mut self, dir: Dir, line: i32, p: [usize; 4], v: [i32; 4])
        requires
            0 <= line < 4,
            forall|n: int| 0 <= n < 4 ==> p@[n] == line_pos(dir, line as int, n),
        ensures
            forall|k: int|
                0 <= k < 16 && line_of_cell(dir, k) != line ==> final(self).cells()[k] == old(self).cells()[k],
            forall|k: int|
                0 <= k < 16 && line_of_cell(dir, k) == line ==> final(self).cells()[k] == v@[rank_of_cell(dir, k)],
            line_values(final(self).cells(), dir, line as int) == seq![v[0] as int, v[1] as int, v[2] as int, v[3] as int],
            seq_sum(final(self).cells()) == seq_sum(old(self).cells()) - line_values(old(self).cells(), dir, line as int)[0]
                - line_values(old(self).cells(), dir, line as int)[1] - line_values(old(self).cells(), dir, line as int)[2]
                - line_values(old(self).cells(), dir, line as int)[3] + v[0] + v[1] + v[2] + v[3],
    {
        proof {
            lemma_line_geometry(dir, line as int);
        }
        let ghost c0 = self.cells();
        let ghost q = seq![p[0] as int, p[1] as int, p[2] as int, p[3] as int];
        let ghost c1 = c0.update(q[0], v[0] as int);
        let ghost c2 = c1.update(q[1], v[1] as int);
        let ghost c3 = c2.update(q[2], v[2] as int);
        let ghost c4 = c3.update(q[3], v[3] as int);
        self.data[p[0]] = v[0];
        self.data[p[1]] = v[1];
        self.data[p[2]] = v[2];
        self.data[p[3]] = v[3];
        proof {
            assert(self.cells() =~= c4);
            lemma_sum_update(c0, q[0], v[0] as int);
            lemma_sum_update(c1, q[1], v[1] as int);
            lemma_sum_update(c2, q[2], v[2] as int);
            lemma_sum_update(c3, q[3], v[3] as int);
            assert(line_values(self.cells(), dir, line as int) =~= seq![v[0] as int, v[1] as int, v[2] as int, v[3] as int]);
        }
    }

    /// Pushes the tiles of line `line` to its leading edge, closing gaps and
    /// keeping their order.
    pub fn squash_line(&mut self, dir: Dir, line: i32)
        requires
            0 <= line < 4,
        ensures
            line_values(final(self).cells(), dir, line as int) == compact(line_values(old(self).cells(), dir, line as int)),
            forall|k: int|
                0 <= k < 16 && line_of_cell(dir, k) != line ==> final(self).cells()[k] == old(self).cells()[k],
            seq_sum(final(self).cells()) == seq_sum(old(self).cells()),
            (forall|k: int| 0 <= k < 16 ==> old(self).cells()[k] >= 0) ==> (forall|k: int|
                0 <= k < 16 ==> final(self).cells()[k] >= 0),
            valid_tiles(old(self).cells()) ==> valid_tiles(final(self).cells()),
    {
        proof {
            lemma_line_geometry(dir, line as int);
        }
        let p = line_positions(dir, line);
        let v = self.load_line(dir, line, p);
        let r = squash4(v);
        proof {
            assert(line_values(self.cells(), dir, line as int) =~= seq![v[0] as int, v[1] as int, v[2] as int, v[3] as int]);
        }
        let ghost c0 = self.cells();
        self.store_line(dir, line, p, r);
        proof {
            if forall|k: int| 0 <= k < 16 ==> c0[k] >= 0 {
                assert(v[0] >= 0 && v[1] >= 0 && v[2] >= 0 && v[3] >= 0);
                assert forall|k: int| 0 <= k < 16 implies self.cells()[k] >= 0 by {
                    if line_of_cell(dir, k) == line {
                        assert(0 <= rank_of_cell(dir, k) < 4);
                    }
                }
            }
            if valid_tiles(c0) {
                assert(valid_tile(v[0] as int) && valid_tile(v[1] as int) && valid_tile(v[2] as int) && valid_tile(v[3] as int));
                assert forall|k: int| 0 <= k < self.cells().len() implies valid_tile(#[trigger] self.cells()[k]) by {
                    if line_of_cell(dir, k) == line {
                        assert(0 <= rank_of_cell(dir, k) < 4);
                    }
                }
            }
        }
    }

    /// Merges each tile of line `line` into an equal predecessor, at most once
    /// per tile, leaving the merged cell empty.
    pub fn merge_line(&mut self, dir: Dir, line: i32)
        requires
            0 <= line < 4,
            wf_cells(old(self).cells()),
        ensures
            line_values(final(self).cells(), dir, line as int) == merge_pairs(line_values(old(self).cells(), dir, line as int)),
            forall|k: int|
                0 <= k < 16 && line_of_cell(dir, k) != line ==> final(self).cells()[k] == old(self).cells()[k],
            wf_cells(final(self).cells()),
            seq_sum(final(self).cells()) == seq_sum(old(self).cells()),
            valid_tiles(old(self).cells()) ==> valid_tiles(final(self).cells()),
    {
        proof {
            lemma_line_geometry(dir, line as int);
        }
        let p = line_positions(dir, line);
        let v = self.load_line(dir, line, p);
        proof {
            let c = self.cells();
            lemma_pair_le_sum(c, p[0] as int, p[1] as int);
            lemma_pair_le_sum(c, p[1] as int, p[2] as int);
            lemma_pair_le_sum(c, p[2] as int, p[3] as int);
        }
        let r = merge4(v);
        proof {
            assert(line_values(self.cells(), dir, line as int) =~= seq![v[0] as int, v[1] as int, v[2] as int, v[3] as int]);
        }
        let ghost c0 = self.cells();
        self.store_line(dir, line, p, r);
        proof {
            assert forall|k: int| 0 <= k < 16 implies self.cells()[k] >= 0 by {
                if line_of_cell(dir, k) == line {
                    assert(0 <= rank_of_cell(dir, k) < 4);
                }
            }
            if valid_tiles(c0) {
                assert(valid_tile(v[0] as int) && valid_tile(v[1] as int) && valid_tile(v[2] as int) && valid_tile(v[3] as int));
                assert forall|k: int| 0 <= k < self.cells().len() implies valid_tile(#[trigger] self.cells()[k]) by {
                    if line_of_cell(dir, k) == line {
                        assert(0 <= rank_of_cell(dir, k) < 4);
                    }
                }
            }
        }
    }
}

/// The line `v` compacted towards index 0.
fn squash4(v: [i32; 4]) -> (r: [i32; 4])
    ensures
        seq![r[0] as int, r[1] as int, r[2] as int, r[3] as int] == compact(seq![v[0] as int, v[1] as int, v[2] as int, v[3] as int]),
        r[0] + r[1] + r[2] + r[3] == v[0] + v[1] + v[2] + v[3],
        (v[0] >= 0 && v[1] >= 0 && v[2] >= 0 && v[3] >= 0) ==> (r[0] >= 0 && r[1] >= 0 && r[2] >= 0 && r[3] >= 0),
        (valid_tile(v[0] as int) && valid_tile(v[1] as int) && valid_tile(v[2] as int) && valid_tile(v[3] as int)) ==> (
        valid_tile(r[0] as int) && valid_tile(r[1] as int) && valid_tile(r[2] as int) && valid_tile(r[3] as int)),
{
    let mut v0 = v[0];
    let mut v1 = v[1];
    let mut v2 = v[2];
    let mut v3 = v[3];
    if v0 == 0 {
        if v1 != 0 {
            v0 = v1;
            v1 = 0;
        } else if v2 != 0 {
            v0 = v2;
            v2 = 0;
        } else if v3 != 0 {
            v0 = v3;
            v3 = 0;
        }
    }
    if v1 == 0 {
        if v2 != 0 {
            v1 = v2;
            v2 = 0;
        } else if v3 != 0 {
            v1 = v3;
            v3 = 0;
        }
    }
    if v2 == 0 {
        if v3 != 0 {
            v2 = v3;
            v3 = 0;
        }
    }
    proof {
        lemma_nonzeros4(v[0] as int, v[1] as int, v[2] as int, v[3] as int);
        assert(seq![v0 as int, v1 as int, v2 as int, v3 as int] =~= compact(
            seq![v[0] as int, v[1] as int, v[2] as int, v[3] as int],
        ));
    }
    [v0, v1, v2, v3]
}

/// One merge pass over the line `v`, from index 0.
fn merge4(v: [i32; 4]) -> (r: [i32; 4])
    requires
        v[0] >= 0 && v[1] >= 0 && v[2] >= 0 && v[3] >= 0,
        v[0] + v[1] <= TOTAL_LIMIT,
        v[1] + v[2] <= TOTAL_LIMIT,
        v[2] + v[3] <= TOTAL_LIMIT,
    ensures
        seq![r[0] as int, r[1] as int, r[2] as int, r[3] as int] == merge_pairs(seq![v[0] as int, v[1] as int, v[2] as int, v[3] as int]),
        r[0] + r[1] + r[2] + r[3] == v[0] + v[1] + v[2] + v[3],
        r[0] >= 0 && r[1] >= 0 && r[2] >= 0 && r[3] >= 0,
        (valid_tile(v[0] as int) && valid_tile(v[1] as int) && valid_tile(v[2] as int) && valid_tile(v[3] as int)) ==> (
        valid_tile(r[0] as int) && valid_tile(r[1] as int) && valid_tile(r[2] as int) && valid_tile(r[3] as int)),
{
    let mut v0 = v[0];
    let mut v1 = v[1];
    let mut v2 = v[2];
    let mut v3 = v[3];
    if v0 == v1 {
        v0 = v0 * 2;
        v1 = 0;
    }
    if v1 == v2 {
        v1 = v1 * 2;
        v2 = 0;
    }
    if v2 == v3 {
        v2 = v2 * 2;
        v3 = 0;
    }
    proof {
        lemma_merge4(v[0] as int, v[1] as int, v[2] as int, v[3] as int);
        assert(seq![v0 as int, v1 as int, v2 as int, v3 as int] =~= merge_pairs(
            seq![v[0] as int, v[1] as int, v[2] as int, v[3] as int],
        ));
    }
    [v0, v1, v2, v3]
}

/// Whether two boards hold the same values.
fn same_data(a: &[i32; 16], b: &[i32; 16]) -> (r: bool)
    ensures
        r == (a@ == b@),
{
    let mut i: usize = 0;
    while i < 16
        invariant
            i <= 16,
            forall|k: int| 0 <= k < i ==> a@[k] == b@[k],
        decreases 16 - i,
    {
        if a[i] != b[i] {
            return false;
        }
        i = i + 1;
    }
    assert(a@ =~= b@);
    true
}

impl World for LineWorld16 {
    type Tile = i32;

    type Coord = usize;

    open spec fn cells(&self) -> Seq<int> {
        self.data@.map_values(|x: i32| x as int)
    }

    fn new() -> (r: LineWorld16) {
        let r = LineWorld16 { data: [0; 16] };
        assert(r.cells() =~= Seq::new(16, |i: int| 0int));
        r
    }

    fn get(&self, x: usize, y: usize) -> (r: i32) {
        self.data[<usize as crate::world::Coord>::from_xy(x, y)]
    }

    fn set(&mut self, n: usize, val: i32) {
        self.data[n] = val;
        assert(self.cells() =~= old(self).cells().update(n as int, val as int));
    }

    fn do_move(&mut self, dir: Dir) -> (r: bool) {
        let old_data = self.data;
        let ghost c0 = self.cells();
        let mut line: i32 = 0;
        while line < 4
            invariant
                0 <= line <= 4,
                wf_cells(self.cells()),
                seq_sum(self.cells()) == seq_sum(c0),
                valid_tiles(c0) ==> valid_tiles(self.cells()),
                forall|k: int|
                    0 <= k < 16 ==> #[trigger] self.cells()[k] == (if line_of_cell(dir, k) < line {
                        move_cells(c0, dir)[k]
                    } else {
                        c0[k]
                    }),
            decreases 4 - line,
        {
            proof {
                reveal(move_cells);
                lemma_line_geometry(dir, line as int);
            }
            let ghost lv = line_values(self.cells(), dir, line as int);
            proof {
                assert(lv =~= line_values(c0, dir, line as int));
            }
            self.squash_line(dir, line);
            self.merge_line(dir, line);
            self.squash_line(dir, line);
            proof {
                assert(lv =~= seq![lv[0], lv[1], lv[2], lv[3]]);
                lemma_slide4(lv[0], lv[1], lv[2], lv[3]);
                assert forall|k: int| 0 <= k < 16 implies #[trigger] self.cells()[k] == (if line_of_cell(dir, k) < line + 1 {
                    move_cells(c0, dir)[k]
                } else {
                    c0[k]
                }) by {
                    if line_of_cell(dir, k) == line {
                        let n = rank_of_cell(dir, k);
                        assert(self.cells()[k] == line_values(self.cells(), dir, line as int)[n]);
                    }
                }
            }
            line = line + 1;
        }
        proof {
            reveal(move_cells);
            assert forall|k: int| 0 <= k < 16 implies line_of_cell(dir, k) < 4 by {}
            assert(self.cells() =~= move_cells(c0, dir));
        }
        let same = same_data(&old_data, &self.data);
        proof {
            if !same {
                if self.cells() == c0 {
                    assert forall|k: int| 0 <= k < 16 implies old_data@[k] == self.data@[k] by {
                        assert(self.cells()[k] == c0[k]);
                    }
                    assert(old_data@ =~= self.data@);
                }
            }
        }
        !same
    }

    fn iterate(&self) -> (r: Vec<(usize, i32)>) {
        let mut r: Vec<(usize, i32)> = Vec::new();
        let mut c: usize = 0;
        while c < 16
            invariant
                c <= 16,
                r.len() == c,
                forall|i: int| 0 <= i < c ==> (#[trigger] r@[i]).0 == i && r@[i].1 == self.data@[i],
            decreases 16 - c,
        {
            r.push((c, self.data[c]));
            c = c + 1;
        }
        r
    }
}

} // verus!
