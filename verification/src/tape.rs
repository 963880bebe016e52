//! The tape: a sparse memory addressed by signed integers, with a movable
//! head. An address that holds no symbol holds the blank; the blank itself is
//! never stored.

use crate::def::{Move, BLANK};
use std::collections::BTreeMap;
use vstd::prelude::*;
use vstd::std_specs::btree::spec_keys_iter;
use vstd::std_specs::iter::IteratorSpec;

verus! {

/// The mathematical value of a tape: the symbols written, by address, and the
/// address of the head.
pub struct TapeView {
    pub cells: Map<int, char>,
    pub head: int,
}

impl TapeView {
    /// The empty tape with its head at address 0.
    pub open spec fn empty() -> TapeView {
        TapeView { cells: Map::empty(), head: 0 }
    }

    /// Whether no address holds an explicit blank.
    pub open spec fn wf(self) -> bool {
        forall|a: int| self.cells.contains_key(a) ==> #[trigger] self.cells[a] != BLANK
    }

    /// The symbol at address `a`.
    pub open spec fn symbol_at(self, a: int) -> char {
        if self.cells.contains_key(a) {
            self.cells[a]
        } else {
            BLANK
        }
    }

    /// The symbol under the head.
    pub open spec fn read(self) -> char {
        self.symbol_at(self.head)
    }

    /// The tape after `symbol` is written at address `a`: writing the blank
    /// erases the address.
    pub open spec fn write_at(self, a: int, symbol: char) -> TapeView {
        TapeView {
            cells: if symbol == BLANK {
                self.cells.remove(a)
            } else {
                self.cells.insert(a, symbol)
            },
            head: self.head,
        }
    }

    /// The tape after `symbol` is written under the head.
    pub open spec fn write(self, symbol: char) -> TapeView {
        self.write_at(self.head, symbol)
    }

    /// The tape after the head has moved.
    pub open spec fn moved(self, direction: Move) -> TapeView {
        TapeView { cells: self.cells, head: self.head + direction.delta() }
    }

    /// The tape after the characters of `text` are written at consecutive
    /// addresses from `from` on.
    pub open spec fn seed(self, text: Seq<char>, from: int) -> TapeView
        decreases text.len(),
    {
        if text.len() == 0 {
            self
        } else {
            self.seed(text.drop_last(), from).write_at(from + text.len() - 1, text.last())
        }
    }

    /// Whether `lo` is the first address of the window: the least among the
    /// head and the written addresses.
    pub open spec fn is_window_start(self, lo: int) -> bool {
        &&& lo <= self.head
        &&& forall|a: int| self.cells.contains_key(a) ==> lo <= a
        &&& (lo == self.head || self.cells.contains_key(lo))
    }

    /// Whether `hi` is the last address of the window: the greatest among the
    /// head and the written addresses.
    pub open spec fn is_window_end(self, hi: int) -> bool {
        &&& self.head <= hi
        &&& forall|a: int| self.cells.contains_key(a) ==> a <= hi
        &&& (hi == self.head || self.cells.contains_key(hi))
    }

    /// The first address of the window.
    pub open spec fn window_start(self) -> int {
        choose|lo: int| self.is_window_start(lo)
    }

    /// The last address of the window.
    pub open spec fn window_end(self) -> int {
        choose|hi: int| self.is_window_end(hi)
    }

    /// The symbols of the window: those at the addresses of the smallest range
    /// that holds the head and every written address.
    pub open spec fn window(self) -> Seq<char> {
        Seq::new(
            (self.window_end() - self.window_start() + 1) as nat,
            |i: int| self.symbol_at(self.window_start() + i),
        )
    }
}

/// A tape has at most one window start and at most one window end.
pub proof fn lemma_window_unique(t: TapeView, lo: int, hi: int)
    requires
        t.is_window_start(lo),
        t.is_window_end(hi),
    ensures
        t.window_start() == lo,
        t.window_end() == hi,
        lo <= t.head <= hi,
{
    let lo2 = t.window_start();
    let hi2 = t.window_end();
    assert(t.is_window_start(lo2));
    assert(t.is_window_end(hi2));
}

/// Seeding changes exactly the addresses that the text covers: each of them
/// holds the character of the text that belongs there, every other address
/// keeps its symbol, and the head stays.
pub proof fn lemma_seed(t: TapeView, text: Seq<char>, from: int)
    requires
        t.wf(),
    ensures
        t.seed(text, from).wf(),
        t.seed(text, from).head == t.head,
        forall|a: int|
            #![trigger t.seed(text, from).symbol_at(a)]
            t.seed(text, from).symbol_at(a) == if from <= a < from + text.len() {
                text[a - from]
            } else {
                t.symbol_at(a)
            },
    decreases text.len(),
{
    if text.len() > 0 {
        let before = t.seed(text.drop_last(), from);
        lemma_seed(t, text.drop_last(), from);
        let after = t.seed(text, from);
        assert forall|a: int| #![trigger after.symbol_at(a)]
            after.symbol_at(a) == if from <= a < from + text.len() {
                text[a - from]
            } else {
                t.symbol_at(a)
            } by {
            assert(before.symbol_at(a) == if from <= a < from + text.len() - 1 {
                text.drop_last()[a - from]
            } else {
                t.symbol_at(a)
            });
        }
    }
}

/// After the blank is written, the head reads the blank and its address is
/// not among the written ones.
pub proof fn lemma_write_blank(t: TapeView)
    ensures
        t.write(BLANK).read() == BLANK,
        !t.write(BLANK).cells.contains_key(t.head),
        t.wf() ==> t.write(BLANK).wf(),
{
}

/// What is written is read back, and a tape that holds no explicit blank
/// holds none after a write.
pub proof fn lemma_write_read(t: TapeView, symbol: char)
    ensures
        t.write(symbol).read() == symbol,
        t.wf() ==> t.write(symbol).wf(),
        forall|a: int| a != t.head ==> t.write(symbol).symbol_at(a) == t.symbol_at(a),
{
}

/// Writing a symbol and then the blank at the same address leaves the tape
/// as writing the blank alone does; where the address held nothing before,
/// the tape is as if it had never been written.
pub proof fn lemma_write_then_erase(t: TapeView, symbol: char)
    ensures
        t.write(symbol).write(BLANK) == t.write(BLANK),
        !t.cells.contains_key(t.head) ==> t.write(symbol).write(BLANK) == t,
        !t.cells.contains_key(t.head) ==> t.write(symbol).write(BLANK).window() == t.window(),
{
    assert(t.write(symbol).write(BLANK).cells =~= t.write(BLANK).cells);
    if !t.cells.contains_key(t.head) {
        assert(t.write(BLANK).cells =~= t.cells);
    }
}

/// Two tapes that hold no explicit blank and show the same symbol at every
/// address have written the same addresses.
pub proof fn lemma_tapes_equal(s: TapeView, t: TapeView)
    requires
        s.wf(),
        t.wf(),
        s.head == t.head,
        forall|a: int| s.symbol_at(a) == t.symbol_at(a),
    ensures
        s == t,
{
    assert forall|a: int| s.cells.contains_key(a) == t.cells.contains_key(a) by {
        assert(s.symbol_at(a) == t.symbol_at(a));
        if s.cells.contains_key(a) {
            assert(s.cells[a] != BLANK);
        }
        if t.cells.contains_key(a) {
            assert(t.cells[a] != BLANK);
        }
    }
    assert forall|a: int| s.cells.contains_key(a) implies s.cells[a] == t.cells[a] by {
        assert(s.symbol_at(a) == t.symbol_at(a));
    }
    assert(s.cells =~= t.cells);
}

/// The tape of a machine.
pub struct Tape {
    tape: BTreeMap<isize, char>,
    head: isize,
}

impl View for Tape {
    type V = TapeView;

    closed spec fn view(&self) -> TapeView {
        TapeView {
            cells: Map::new(
                |a: int| isize::MIN <= a <= isize::MAX && self.tape@.contains_key(a as isize),
                |a: int| self.tape@[a as isize],
            ),
            head: self.head as int,
        }
    }
}

impl Tape {
    /// The invariant of the representation: no address holds an explicit
    /// blank.
    pub closed spec fn wf(&self) -> bool {
        forall|k: isize| self.tape@.contains_key(k) ==> #[trigger] self.tape@[k] != BLANK
    }

    /// The view of a well-formed tape is well formed.
    pub proof fn lemma_wf(self)
        requires
            self.wf(),
        ensures
            self@.wf(),
    {
        assert forall|a: int| self@.cells.contains_key(a) implies #[trigger] self@.cells[a]
            != BLANK by {
            assert(self.tape@.contains_key(a as isize));
        }
    }

    /// Creates the empty tape with its head at address 0.
    pub fn new() -> (t: Self)
        ensures
            t@ == TapeView::empty(),
            t.wf(),
    {
        let t = Tape { tape: BTreeMap::new(), head: 0 };
        assert(t@.cells =~= Map::<int, char>::empty());
        t
    }

    /// Returns the address of the head.
    pub fn head(&self) -> (h: isize)
        ensures
            h == self@.head,
    {
        self.head
    }

    /// Moves the head: one address down for `Left`, one up for `Right`, not
    /// at all for `Stay`.
    pub fn apply_move(&mut self, direction: &Move)
        requires
            old(self).wf(),
            isize::MIN <= old(self)@.head + direction.delta() <= isize::MAX,
        ensures
            final(self)@ == old(self)@.moved(*direction),
            final(self).wf(),
    {
        match direction {
            Move::Left => {
                self.head = self.head - 1;
            },
            Move::Right => {
                self.head = self.head + 1;
            },
            Move::Stay => {},
        }
        assert(self@.cells =~= old(self)@.cells);
    }

    /// Returns the symbol at `index`: the blank where nothing is written.
    pub fn cell(&self, index: isize) -> (c: char)
        ensures
            c == self@.symbol_at(index as int),
    {
        match self.tape.get(&index) {
            Some(c) => *c,
            None => BLANK,
        }
    }

    /// Returns the symbol under the head.
    pub fn get(&self) -> (c: char)
        ensures
            c == self@.read(),
    {
        self.cell(self.head)
    }

    /// Writes `value` at `index`; writing the blank erases the address.
    pub fn insert(&mut self, index: isize, value: char)
        requires
            old(self).wf(),
        ensures
            final(self)@ == old(self)@.write_at(index as int, value),
            final(self).wf(),
    {
        if value == BLANK {
            self.tape.remove(&index);
            assert(self@.cells =~= old(self)@.cells.remove(index as int));
        } else {
            self.tape.insert(index, value);
            assert(self@.cells =~= old(self)@.cells.insert(index as int, value));
        }
    }

    /// Writes `value` under the head; writing the blank erases the address.
    pub fn set(&mut self, value: char)
        requires
            old(self).wf(),
        ensures
            final(self)@ == old(self)@.write(value),
            final(self).wf(),
    {
        let head = self.head;
        self.insert(head, value);
    }

    /// Writes the characters of `text` at consecutive addresses from `from`
    /// on.
    pub fn seed(&mut self, text: &Vec<char>, from: isize)
        requires
            old(self).wf(),
            from + text.len() <= isize::MAX + 1,
        ensures
            final(self)@ == old(self)@.seed(text@, from as int),
            final(self).wf(),
    {
        let mut i: usize = 0;
        let mut at: isize = from;
        while i < text.len()
            invariant
                i <= text.len(),
                from + text.len() <= isize::MAX + 1,
                at == from + i || (i == text.len() && at == from + i - 1),
                self@ == old(self)@.seed(text@.take(i as int), from as int),
                self.wf(),
            decreases text.len() - i,
        {
            self.insert(at, text[i]);
            assert(text@.take(i + 1).drop_last() == text@.take(i as int));
            i += 1;
            if i < text.len() {
                at = at + 1;
            }
        }
        assert(text@.take(text.len() as int) == text@);
    }

    /// Returns the least written address, if anything is written.
    fn lowest(&self) -> (r: Option<isize>)
        ensures
            r is None <==> self@.cells.dom() == Set::<int>::empty(),
            r matches Some(k) ==> self@.cells.contains_key(k as int) && forall|a: int|
                self@.cells.contains_key(a) ==> k <= a,
    {
        let mut r: Option<isize> = None;
        let ghost keys: Seq<isize> = spec_keys_iter(&self.tape).remaining().unref();
        let ghost mut seen: int = 0;
        for k in it: self.tape.keys()
            invariant
                keys == it.seq().unref(),
                keys.to_set() == self.tape@.dom(),
                seen == it.index(),
                r is None <==> seen == 0,
                r matches Some(x) ==> keys.to_set().contains(x) && forall|i: int|
                    0 <= i < seen ==> x <= keys[i],
        {
            proof {
                assert(keys[seen] == *k);
                assert(keys.to_set().contains(*k));
                seen = seen + 1;
            }
            match r {
                None => {
                    r = Some(*k);
                },
                Some(x) => {
                    if *k < x {
                        r = Some(*k);
                    }
                },
            }
        }
        proof {
            assert(seen == keys.len());
            assert forall|a: int| self@.cells.contains_key(a) implies r is Some && r->0 <= a by {
                assert(keys.to_set().contains(a as isize));
                let i = choose|i: int| 0 <= i < keys.len() && keys[i] == a as isize;
            }
            if r is None {
                assert(self@.cells.dom() =~= Set::<int>::empty());
            } else {
                assert(self@.cells.dom().contains(r->0 as int));
            }
        }
        r
    }

    /// Returns the greatest written address, if anything is written.
    fn highest(&self) -> (r: Option<isize>)
        ensures
            r is None <==> self@.cells.dom() == Set::<int>::empty(),
            r matches Some(k) ==> self@.cells.contains_key(k as int) && forall|a: int|
                self@.cells.contains_key(a) ==> a <= k,
    {
        let mut r: Option<isize> = None;
        let ghost keys: Seq<isize> = spec_keys_iter(&self.tape).remaining().unref();
        let ghost mut seen: int = 0;
        for k in it: self.tape.keys()
            invariant
                keys == it.seq().unref(),
                keys.to_set() == self.tape@.dom(),
                seen == it.index(),
                r is None <==> seen == 0,
                r matches Some(x) ==> keys.to_set().contains(x) && forall|i: int|
                    0 <= i < seen ==> keys[i] <= x,
        {
            proof {
                assert(keys[seen] == *k);
                assert(keys.to_set().contains(*k));
                seen = seen + 1;
            }
            match r {
                None => {
                    r = Some(*k);
                },
                Some(x) => {
                    if *k > x {
                        r = Some(*k);
                    }
                },
            }
        }
        proof {
            assert(seen == keys.len());
            assert forall|a: int| self@.cells.contains_key(a) implies r is Some && a <= r->0 by {
                assert(keys.to_set().contains(a as isize));
                let i = choose|i: int| 0 <= i < keys.len() && keys[i] == a as isize;
            }
            if r is None {
                assert(self@.cells.dom() =~= Set::<int>::empty());
            } else {
                assert(self@.cells.dom().contains(r->0 as int));
            }
        }
        r
    }

    /// Returns the window and its first address: the symbols at the addresses
    /// of the smallest range that holds the head and every written address.
    /// Where nothing is written, the window is the one address of the head.
    pub fn as_vec(&self) -> (r: (Vec<char>, isize))
        ensures
            r.1 == self@.window_start(),
            r.0@ == self@.window(),
            r.0@.len() == self@.window_end() - self@.window_start() + 1,
            self@.is_window_start(self@.window_start()),
            self@.is_window_end(self@.window_end()),
    {
        let lo: isize = match self.lowest() {
            Some(k) => if k < self.head {
                k
            } else {
                self.head
            },
            None => self.head,
        };
        let hi: isize = match self.highest() {
            Some(k) => if k > self.head {
                k
            } else {
                self.head
            },
            None => self.head,
        };
        proof {
            lemma_window_unique(self@, lo as int, hi as int);
        }
        let mut v: Vec<char> = Vec::new();
        let mut a: isize = lo;
        loop
            invariant_except_break
                v@.len() == a - lo,
            invariant
                lo <= a <= hi,
                forall|i: int| 0 <= i < v@.len() ==> v@[i] == self@.symbol_at(lo + i),
            ensures
                v@.len() == hi - lo + 1,
                forall|i: int| 0 <= i < v@.len() ==> v@[i] == self@.symbol_at(lo + i),
            decreases hi - a,
        {
            v.push(self.cell(a));
            if a == hi {
                break ;
            }
            a = a + 1;
        }
        assert(v@ =~= self@.window());
        (v, lo)
    }
}

} // verus!
