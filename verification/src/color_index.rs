use vstd::prelude::*;
use crate::piece::{Piece, Sides};

verus! {

/// For each color, the pieces that show it on some side. The color zero marks
/// a side on the edge of the grid and is never indexed.
#[derive(Debug)]
pub struct ColorIndex {
    by_color: Vec<Vec<u8>>,
}

/// Each item is larger than the one before it.
pub open spec fn ascending(ids: Seq<u8>) -> bool {
    forall|i: int, j: int| 0 <= i < j < ids.len() ==> ids[i] < ids[j]
}

/// An ascending list is determined by what it holds.
pub proof fn lemma_ascending_unique(s: Seq<u8>, t: Seq<u8>)
    requires
        ascending(s),
        ascending(t),
        forall|v: u8| s.contains(v) <==> t.contains(v),
    ensures
        s == t,
    decreases s.len(),
{
    if s.len() == 0 {
        if t.len() > 0 {
            assert(t.contains(t[0]));
        }
        assert(s =~= t);
    } else {
        assert(s.contains(s.last()));
        assert(t.len() > 0);
        assert(t.contains(t.last()));
        let i = choose|i: int| 0 <= i < t.len() && t[i] == s.last();
        let j = choose|j: int| 0 <= j < s.len() && s[j] == t.last();
        assert(s.last() == t.last());
        let s0 = s.drop_last();
        let t0 = t.drop_last();
        assert forall|v: u8| s0.contains(v) <==> t0.contains(v) by {
            if s0.contains(v) {
                let k = choose|k: int| 0 <= k < s0.len() && s0[k] == v;
                assert(s[k] == v);
                assert(s.contains(v));
                let m = choose|m: int| 0 <= m < t.len() && t[m] == v;
                assert(m < t.len() - 1);
                assert(t0[m] == v);
            }
            if t0.contains(v) {
                let k = choose|k: int| 0 <= k < t0.len() && t0[k] == v;
                assert(t[k] == v);
                assert(t.contains(v));
                let m = choose|m: int| 0 <= m < s.len() && s[m] == v;
                assert(m < s.len() - 1);
                assert(s0[m] == v);
            }
        }
        lemma_ascending_unique(s0, t0);
        assert(s =~= s0.push(s.last()));
        assert(t =~= t0.push(t.last()));
    }
}

impl ColorIndex {
    /// The identifiers listed under `color`.
    pub closed spec fn ids(&self, color: u8) -> Seq<u8> {
        self.by_color[color as int]@
    }

    /// There is a list for each of the 256 colors.
    pub closed spec fn wf(&self) -> bool {
        self.by_color.len() == 256
    }

    /// The index lists, under each color, the first `count` pieces of the
    /// inventory that show it, in ascending order.
    pub open spec fn covers(&self, pieces: Seq<Piece>, count: int) -> bool {
        forall|color: u8|
            {
                &&& ascending(#[trigger] self.ids(color))
                &&& forall|id: u8|
                    self.ids(color).contains(id) <==> id < count && color > 0
                        && pieces[id as int].props().kind.has_color(color)
            }
    }

    /// The index lists, under each color, the pieces of the inventory that
    /// show it, in ascending order.
    pub open spec fn indexes(&self, pieces: Seq<Piece>) -> bool {
        self.covers(pieces, pieces.len() as int)
    }

    /// Lists `id` under `color` unless it is the last entry already.
    fn note(&mut self, color: u8, id: u8)
        requires
            old(self).wf(),
            forall|k: int| 0 <= k < old(self).ids(color).len() ==> old(self).ids(color)[k] <= id,
            ascending(old(self).ids(color)),
        ensures
            final(self).wf(),
            forall|c: u8| c != color ==> final(self).ids(c) == old(self).ids(c),
            ascending(final(self).ids(color)),
            forall|k: int|
                0 <= k < final(self).ids(color).len() ==> final(self).ids(color)[k] <= id,
            forall|other: u8|
                final(self).ids(color).contains(other) <==> old(self).ids(color).contains(other)
                    || other == id,
    {
        let n = self.by_color[color as usize].len();
        let ghost before = self.by_color[color as int]@;
        if n > 0 && self.by_color[color as usize][n - 1] == id {
            assert(before.contains(id)) by {
                assert(before[n - 1] == id);
            }
            return ;
        }
        self.by_color[color as usize].push(id);
        proof {
            let after = self.by_color[color as int]@;
            assert(after == before.push(id));
            assert forall|i: int, j: int| 0 <= i < j < after.len() implies after[i] < after[j] by {
                if j == n {
                    assert(before[i] <= id);
                    if n > 0 {
                        assert(before[n - 1] != id);
                        if i < n - 1 {
                            assert(before[i] < before[n - 1]);
                        }
                    }
                }
            }
            assert forall|other: u8| after.contains(other) <==> before.contains(other) || other
                == id by {
                if before.contains(other) {
                    let k = choose|k: int| 0 <= k < before.len() && before[k] == other;
                    assert(after[k] == other);
                }
                if other == id {
                    assert(after[n as int] == id);
                }
            }
        }
    }

    /// Builds the index of an inventory.
    pub fn new(pieces: &Vec<Piece>) -> (r: ColorIndex)
        requires
            pieces.len() <= 256,
        ensures
            r.wf(),
            r.indexes(pieces@),
    {
        let mut by_color: Vec<Vec<u8>> = Vec::new();
        let mut c: usize = 0;
        while c < 256
            invariant
                c <= 256,
                by_color.len() == c,
                forall|k: int| 0 <= k < c ==> (#[trigger] by_color[k]).len() == 0,
            decreases 256 - c,
        {
            by_color.push(Vec::new());
            c += 1;
        }
        let mut index = ColorIndex { by_color };
        assert(index.covers(pieces@, 0)) by {
            assert forall|color: u8|
                {
                    &&& ascending(#[trigger] index.ids(color))
                    &&& forall|id: u8|
                        index.ids(color).contains(id) <==> id < 0int && color > 0
                            && pieces[id as int].props().kind.has_color(color)
                } by {
                assert(index.ids(color).len() == 0);
            }
        }
        let mut i: usize = 0;
        while i < pieces.len()
            invariant
                i <= pieces.len() <= 256,
                index.wf(),
                index.covers(pieces@, i as int),
            decreases pieces.len() - i,
        {
            let id = i as u8;
            let ghost before = index;
            let sides = pieces[i].get_props().kind;
            let (a, b, c, d) = match sides {
                Sides::Corner(a, b) => (a, b, 0u8, 0u8),
                Sides::Border(a, b, c) => (a, b, c, 0u8),
                Sides::Full(a, b, c, d) => (a, b, c, d),
            };
            proof {
                assert forall|color: u8, k: int| 0 <= k < before.ids(color).len() implies (
                #[trigger] before.ids(color)[k]) < id by {
                    assert(before.ids(color).contains(before.ids(color)[k]));
                }
            }
            index.list(a, id, Ghost(before), Ghost(Seq::empty()));
            index.list(b, id, Ghost(before), Ghost(Seq::empty().push(a)));
            index.list(c, id, Ghost(before), Ghost(Seq::empty().push(a).push(b)));
            index.list(d, id, Ghost(before), Ghost(Seq::empty().push(a).push(b).push(c)));
            proof {
                let done = Seq::<u8>::empty().push(a).push(b).push(c).push(d);
                assert forall|color: u8|
                    {
                        &&& ascending(#[trigger] index.ids(color))
                        &&& forall|other: u8|
                            index.ids(color).contains(other) <==> other < i + 1 && color > 0
                                && pieces[other as int].props().kind.has_color(color)
                    } by {
                    assert(done.contains(color) <==> a == color || b == color || c == color || d
                        == color) by {
                        if done.contains(color) {
                            let k = choose|k: int| 0 <= k < done.len() && done[k] == color;
                        }
                        assert(done[0] == a && done[1] == b && done[2] == c && done[3] == d);
                    }
                    assert(color > 0 ==> (sides.has_color(color) <==> done.contains(color)));
                }
            }
            i += 1;
        }
        index
    }

    /// Lists `id` under `color` if the color is not zero. `before` is the
    /// index before `id` was listed anywhere and `done` are the colors under
    /// which it was listed since.
    fn list(&mut self, color: u8, id: u8, Ghost(before): Ghost<ColorIndex>, Ghost(done): Ghost<
        Seq<u8>,
    >)
        requires
            old(self).wf(),
            forall|c: u8| ascending(#[trigger] before.ids(c)),
            forall|c: u8, k: int|
                0 <= k < before.ids(c).len() ==> (#[trigger] before.ids(c)[k]) < id,
            old(self).tracks(before, id, done),
        ensures
            final(self).wf(),
            final(self).tracks(before, id, done.push(color)),
    {
        if color > 0 {
            proof {
                assert(ascending(self.ids(color)));
                assert forall|k: int| 0 <= k < self.ids(color).len() implies self.ids(color)[k]
                    <= id by {
                    let v = self.ids(color)[k];
                    assert(self.ids(color).contains(v));
                    if before.ids(color).contains(v) {
                        let m = choose|m: int|
                            0 <= m < before.ids(color).len() && before.ids(color)[m] == v;
                    }
                }
            }
            self.note(color, id);
        }
        proof {
            let now = done.push(color);
            assert forall|c: u8|
                {
                    &&& ascending(#[trigger] self.ids(c))
                    &&& forall|other: u8|
                        self.ids(c).contains(other) <==> before.ids(c).contains(other) || (other
                            == id && c > 0 && now.contains(c))
                } by {
                assert(now.contains(c) <==> done.contains(c) || c == color) by {
                    if done.contains(c) {
                        let k = choose|k: int| 0 <= k < done.len() && done[k] == c;
                        assert(now[k] == c);
                    }
                    if c == color {
                        assert(now[done.len() as int] == c);
                    }
                    if now.contains(c) {
                        let k = choose|k: int| 0 <= k < now.len() && now[k] == c;
                        if k < done.len() {
                            assert(done[k] == c);
                        }
                    }
                }
            }
        }
    }

    /// Since the index was `before`, `id` has been listed under the colors of
    /// `done` that are not zero, and nothing else has changed.
    pub closed spec fn tracks(&self, before: ColorIndex, id: u8, done: Seq<u8>) -> bool {
        forall|c: u8|
            {
                &&& ascending(#[trigger] self.ids(c))
                &&& forall|other: u8|
                    self.ids(c).contains(other) <==> before.ids(c).contains(other) || (other == id
                        && c > 0 && done.contains(c))
            }
    }

    /// The pieces that show `color`, in ascending order.
    pub fn pieces_with(&self, color: u8) -> (r: &Vec<u8>)
        requires
            self.wf(),
        ensures
            r@ == self.ids(color),
    {
        &self.by_color[color as usize]
    }
}

} // verus!
