//! A model of the engine's block layout as the handles observe it, and the
//! laws that the handles and the engine's calls keep together.
use crate::basic_block::{detach_call, wraps_block, BasicBlock, BlockCall};
use crate::values::{wraps_function, wraps_instruction, FunctionValue, InstructionValue};
use vstd::prelude::*;

verus! {

/// What the engine holds of blocks, as far as a block handle can see it.
/// References are addresses; `0` is null.
pub struct IrLayout {
    /// The blocks of each function, by function reference, in order.
    pub functions: Map<usize, Seq<usize>>,
    /// The instructions of each live block, in order.
    pub instructions: Map<usize, Seq<usize>>,
    /// The instructions that end a block: returns, branches, unreachable.
    pub terminators: Set<usize>,
}

impl IrLayout {
    /// Function `f` holds block `b`.
    pub open spec fn holds(self, f: usize, b: usize) -> bool {
        self.functions.contains_key(f) && self.functions[f].contains(b)
    }

    /// The layout is one that the engine can be in: no null references, a
    /// block at most once in at most one function, and every block of a
    /// function alive.
    pub open spec fn wf(self) -> bool {
        &&& !self.functions.contains_key(0)
        &&& !self.instructions.contains_key(0)
        &&& forall|f: usize| #[trigger]
            self.functions.contains_key(f) ==> self.functions[f].no_duplicates()
                && !self.functions[f].contains(0)
        &&& forall|f: usize, g: usize, b: usize|
            #[trigger] self.holds(f, b) && #[trigger] self.holds(g, b) ==> f == g
        &&& forall|f: usize, b: usize| #[trigger]
            self.holds(f, b) ==> self.instructions.contains_key(b)
    }

    /// Block `b` belongs to some function.
    pub open spec fn is_attached(self, b: usize) -> bool {
        exists|f: usize| self.holds(f, b)
    }

    /// Block `c` comes just after block `b` in their function.
    pub open spec fn follows(self, b: usize, c: usize) -> bool {
        exists|f: usize, i: int|
            #![trigger self.functions[f][i]]
            self.functions.contains_key(f) && 0 <= i && i + 1 < self.functions[f].len()
                && self.functions[f][i] == b && self.functions[f][i + 1] == c
    }

    /// `r` is what the engine answers when asked for the parent of `b`.
    pub open spec fn answers_parent(self, b: usize, r: usize) -> bool {
        if r == 0 {
            !self.is_attached(b)
        } else {
            self.holds(r, b)
        }
    }

    /// `r` is what the engine answers when asked for the block after `b`.
    pub open spec fn answers_next(self, b: usize, r: usize) -> bool {
        if r == 0 {
            forall|c: usize| !self.follows(b, c)
        } else {
            self.follows(b, r)
        }
    }

    /// `r` is what the engine answers when asked for the block before `b`.
    pub open spec fn answers_previous(self, b: usize, r: usize) -> bool {
        if r == 0 {
            forall|c: usize| !self.follows(c, b)
        } else {
            self.follows(r, b)
        }
    }

    /// The engine's answer for the first instruction of block `b`.
    pub open spec fn first_instruction(self, b: usize) -> usize {
        let s = self.instructions[b];
        if s.len() == 0 {
            0
        } else {
            s[0]
        }
    }

    /// The engine's answer for the last instruction of block `b`.
    pub open spec fn last_instruction(self, b: usize) -> usize {
        let s = self.instructions[b];
        if s.len() == 0 {
            0
        } else {
            s.last()
        }
    }

    /// The engine's answer for the terminator of block `b`: its last
    /// instruction where that ends a block.
    pub open spec fn terminator(self, b: usize) -> usize {
        let s = self.instructions[b];
        if s.len() > 0 && self.terminators.contains(s.last()) {
            s.last()
        } else {
            0
        }
    }

    /// The layout after the engine unlinks block `b` from its function `f`.
    pub open spec fn unlinked(self, f: usize, b: usize) -> IrLayout {
        let s = self.functions[f];
        IrLayout {
            functions: self.functions.insert(f, s.remove(s.index_of(b))),
            instructions: self.instructions,
            terminators: self.terminators,
        }
    }

    /// The layout after the engine moves block `b` of function `f` to just
    /// before block `t` of the same function.
    pub open spec fn moved_before(self, f: usize, b: usize, t: usize) -> IrLayout {
        let s = self.functions[f].remove(self.functions[f].index_of(b));
        IrLayout {
            functions: self.functions.insert(f, s.insert(s.index_of(t), b)),
            instructions: self.instructions,
            terminators: self.terminators,
        }
    }

    /// The layout after the engine moves block `b` of function `f` to just
    /// after block `t` of the same function.
    pub open spec fn moved_after(self, f: usize, b: usize, t: usize) -> IrLayout {
        let s = self.functions[f].remove(self.functions[f].index_of(b));
        IrLayout {
            functions: self.functions.insert(f, s.insert(s.index_of(t) + 1, b)),
            instructions: self.instructions,
            terminators: self.terminators,
        }
    }

    /// `x` refers to no block of the engine yet.
    pub open spec fn is_fresh(self, x: usize) -> bool {
        x != 0 && !self.instructions.contains_key(x)
    }

    /// The layout after the engine creates the empty block `x` just before
    /// block `b` of function `f`.
    pub open spec fn inserted_before(self, f: usize, b: usize, x: usize) -> IrLayout {
        let s = self.functions[f];
        IrLayout {
            functions: self.functions.insert(f, s.insert(s.index_of(b), x)),
            instructions: self.instructions.insert(x, Seq::empty()),
            terminators: self.terminators,
        }
    }

    /// The layout after instruction `i` is appended to block `b`.
    pub open spec fn appended(self, b: usize, i: usize) -> IrLayout {
        IrLayout {
            functions: self.functions,
            instructions: self.instructions.insert(b, self.instructions[b].push(i)),
            terminators: self.terminators,
        }
    }

    /// The layout after detaching block `b`, whose parent the engine gave
    /// as `parent`: the handle's decision, then the engine's call.
    pub open spec fn detached(self, b: usize, parent: usize) -> IrLayout {
        match detach_call(b, parent) {
            Some(BlockCall::RemoveFromParent { block }) => self.unlinked(parent, block),
            _ => self,
        }
    }
}


/// Taking one element out of a sequence without repeats leaves the others,
/// still without repeats.
proof fn lemma_remove_distinct(s: Seq<usize>, i: int)
    requires
        s.no_duplicates(),
        0 <= i < s.len(),
    ensures
        s.remove(i).no_duplicates(),
        forall|x: usize| s.remove(i).contains(x) <==> (s.contains(x) && x != s[i]),
{
    s.remove_ensures(i);
    let r = s.remove(i);
    assert forall|x: usize| r.contains(x) <==> (s.contains(x) && x != s[i]) by {
        if r.contains(x) {
            let k = choose|k: int| 0 <= k < r.len() && r[k] == x;
            if k < i {
                assert(s[k] == x);
            } else {
                assert(s[k + 1] == x);
            }
        }
        if s.contains(x) && x != s[i] {
            let k = choose|k: int| 0 <= k < s.len() && s[k] == x;
            if k < i {
                assert(r[k] == x);
            } else {
                assert(r[k - 1] == x);
            }
        }
    }
    assert forall|a: int, b: int| 0 <= a < r.len() && 0 <= b < r.len() && a != b implies r[a]
        != r[b] by {
        let sa = if a < i {
            a
        } else {
            a + 1
        };
        let sb = if b < i {
            b
        } else {
            b + 1
        };
        assert(r[a] == s[sa]);
        assert(r[b] == s[sb]);
    }
}

/// Putting a new element into a sequence without repeats keeps it without
/// repeats.
proof fn lemma_insert_distinct(s: Seq<usize>, k: int, x: usize)
    requires
        s.no_duplicates(),
        !s.contains(x),
        0 <= k <= s.len(),
    ensures
        s.insert(k, x).no_duplicates(),
        s.insert(k, x)[k] == x,
        s.insert(k, x).len() == s.len() + 1,
        forall|y: usize| s.insert(k, x).contains(y) <==> (s.contains(y) || y == x),
{
    s.insert_ensures(k, x);
    let r = s.insert(k, x);
    assert forall|y: usize| r.contains(y) <==> (s.contains(y) || y == x) by {
        if r.contains(y) {
            let j = choose|j: int| 0 <= j < r.len() && r[j] == y;
            if j < k {
                assert(s[j] == y);
            } else if j > k {
                assert(r[j] == s[j - 1]);
            }
        }
        if s.contains(y) {
            let j = choose|j: int| 0 <= j < s.len() && s[j] == y;
            if j < k {
                assert(r[j] == y);
            } else {
                assert(r[j + 1] == y);
            }
        }
        if y == x {
            assert(r[k] == y);
        }
    }
    assert forall|a: int, b: int| 0 <= a < r.len() && 0 <= b < r.len() && a != b implies r[a]
        != r[b] by {
        if a != k && b != k {
            let sa = if a < k {
                a
            } else {
                a - 1
            };
            let sb = if b < k {
                b
            } else {
                b - 1
            };
            assert(r[a] == s[sa]);
            assert(r[b] == s[sb]);
        } else if a == k {
            let sb = if b < k {
                b
            } else {
                b - 1
            };
            assert(r[b] == s[sb]);
        } else {
            let sa = if a < k {
                a
            } else {
                a - 1
            };
            assert(r[a] == s[sa]);
        }
    }
}

/// In a sequence without repeats, an element sits at one place only.
proof fn lemma_one_place(s: Seq<usize>, x: usize)
    requires
        s.no_duplicates(),
        s.contains(x),
    ensures
        0 <= s.index_of(x) < s.len(),
        s[s.index_of(x)] == x,
        forall|j: int| 0 <= j < s.len() && s[j] == x ==> j == s.index_of(x),
{
}

/// In a well-formed layout a block has at most one successor.
proof fn lemma_next_unique(l: IrLayout, b: usize, c: usize, d: usize)
    requires
        l.wf(),
        l.follows(b, c),
        l.follows(b, d),
    ensures
        c == d,
{
    let (f, i) = choose|f: usize, i: int|
        #![trigger l.functions[f][i]]
        l.functions.contains_key(f) && 0 <= i && i + 1 < l.functions[f].len()
            && l.functions[f][i] == b && l.functions[f][i + 1] == c;
    let (g, j) = choose|g: usize, j: int|
        #![trigger l.functions[g][j]]
        l.functions.contains_key(g) && 0 <= j && j + 1 < l.functions[g].len()
            && l.functions[g][j] == b && l.functions[g][j + 1] == d;
    assert(l.holds(f, b));
    assert(l.holds(g, b));
    assert(f == g);
    assert(l.functions[f].no_duplicates());
}

/// In a well-formed layout a block has at most one predecessor.
proof fn lemma_previous_unique(l: IrLayout, b: usize, c: usize, d: usize)
    requires
        l.wf(),
        l.follows(c, b),
        l.follows(d, b),
    ensures
        c == d,
{
    let (f, i) = choose|f: usize, i: int|
        #![trigger l.functions[f][i]]
        l.functions.contains_key(f) && 0 <= i && i + 1 < l.functions[f].len()
            && l.functions[f][i] == c && l.functions[f][i + 1] == b;
    let (g, j) = choose|g: usize, j: int|
        #![trigger l.functions[g][j]]
        l.functions.contains_key(g) && 0 <= j && j + 1 < l.functions[g].len()
            && l.functions[g][j] == d && l.functions[g][j + 1] == b;
    assert(l.holds(f, b));
    assert(l.holds(g, b));
    assert(f == g);
    assert(l.functions[f].no_duplicates());
    assert(l.functions[f][i + 1] == l.functions[f][j + 1]);
}

/// Where `c` follows `b` in a well-formed layout, the engine answers `c`
/// and only `c` for the block after `b`, and `b` and only `b` for the
/// block before `c`.
proof fn lemma_answers_of_follows(l: IrLayout, b: usize, c: usize)
    requires
        l.wf(),
        l.follows(b, c),
        b != 0,
        c != 0,
    ensures
        l.answers_next(b, c),
        forall|r: usize| l.answers_next(b, r) ==> r == c,
        l.answers_previous(c, b),
        forall|r: usize| l.answers_previous(c, r) ==> r == b,
{
    assert forall|r: usize| l.answers_next(b, r) implies r == c by {
        if r != 0 {
            lemma_next_unique(l, b, c, r);
        }
    }
    assert forall|r: usize| l.answers_previous(c, r) implies r == b by {
        if r != 0 {
            lemma_previous_unique(l, c, b, r);
        }
    }
}

/// Function `f` of a well-formed layout is the only one to hold `b`: the
/// engine answers `f` and only `f` for its parent.
proof fn lemma_answers_of_holds(l: IrLayout, f: usize, b: usize)
    requires
        l.wf(),
        l.holds(f, b),
    ensures
        l.answers_parent(b, f),
        forall|r: usize| l.answers_parent(b, r) ==> r == f,
{
    assert(f != 0);
}

/// Giving function `f` the sequence `t`, which holds what `f` held and
/// perhaps `added`, a block of no other function, and giving the blocks the
/// instructions `ins`, which keep every live block, keeps the layout well
/// formed.
proof fn lemma_wf_replace(
    l: IrLayout,
    f: usize,
    t: Seq<usize>,
    added: usize,
    ins: Map<usize, Seq<usize>>,
)
    requires
        l.wf(),
        l.functions.contains_key(f),
        t.no_duplicates(),
        forall|y: usize| t.contains(y) ==> l.functions[f].contains(y) || y == added,
        added != 0,
        !l.is_attached(added) || l.functions[f].contains(added),
        ins.contains_key(added),
        !ins.contains_key(0),
        forall|k: usize| l.instructions.contains_key(k) ==> ins.contains_key(k),
    ensures
        (IrLayout {
            functions: l.functions.insert(f, t),
            instructions: ins,
            terminators: l.terminators,
        }).wf(),
{
    let l2 = IrLayout { functions: l.functions.insert(f, t), instructions: ins, terminators: l.terminators };
    assert forall|g: usize, h: usize, b: usize| #[trigger]
        l2.holds(g, b) && #[trigger] l2.holds(h, b) implies g == h by {
        if g != f && h != f {
            assert(l.holds(g, b) && l.holds(h, b));
        } else if g == f && h != f {
            assert(l.holds(h, b));
            if b != added || l.functions[f].contains(added) {
                assert(l.holds(f, b));
            }
        } else if g != f && h == f {
            assert(l.holds(g, b));
            if b != added || l.functions[f].contains(added) {
                assert(l.holds(f, b));
            }
        }
    }
    assert forall|g: usize, b: usize| #[trigger] l2.holds(g, b) implies l2.instructions.contains_key(
        b,
    ) by {
        if g == f && b != added {
            assert(l.holds(f, b));
        } else if g != f {
            assert(l.holds(g, b));
        }
    }
    assert forall|g: usize| #[trigger]
        l2.functions.contains_key(g) implies l2.functions[g].no_duplicates()
        && !l2.functions[g].contains(0) by {
        if g != f {
            assert(l.functions.contains_key(g));
        } else {
            assert(l.functions.contains_key(f));
            if t.contains(0) {
                assert(l.functions[f].contains(0));
            }
        }
    }
}

/// Detaching a block leaves it without a parent: afterwards the engine
/// answers null for its parent, which the handle turns into none.
pub proof fn law_detach_clears_parent(l: IrLayout, b: BasicBlock, parent: usize)
    requires
        l.wf(),
        l.answers_parent(b.raw(), parent),
    ensures
        l.detached(b.raw(), parent).wf(),
        l.detached(b.raw(), parent).answers_parent(b.raw(), 0),
        forall|r: usize, h: Option<FunctionValue>|
            l.detached(b.raw(), parent).answers_parent(b.raw(), r) && wraps_function(h, r)
                ==> h is None,
{
    let x = b.raw();
    if parent != 0 {
        let s = l.functions[parent];
        assert(l.functions.contains_key(parent));
        lemma_one_place(s, x);
        let i = s.index_of(x);
        lemma_remove_distinct(s, i);
        lemma_wf_replace(l, parent, s.remove(i), x, l.instructions);
        let l2 = l.unlinked(parent, x);
        assert(l2 == l.detached(x, parent));
        assert forall|g: usize| !l2.holds(g, x) by {
            if g != parent && l2.holds(g, x) {
                assert(l.holds(g, x));
            }
        }
    }
}

/// Detaching twice is safe: once a block is detached, detaching it again
/// asks the engine for nothing and changes nothing.
pub proof fn law_detach_twice(l: IrLayout, b: BasicBlock, parent: usize)
    requires
        l.wf(),
        l.answers_parent(b.raw(), parent),
    ensures
        forall|again: usize|
            l.detached(b.raw(), parent).answers_parent(b.raw(), again) ==> detach_call(
                b.raw(),
                again,
            ) is None && l.detached(b.raw(), parent).detached(b.raw(), again) == l.detached(
                b.raw(),
                parent,
            ),
{
    law_detach_clears_parent(l, b, parent);
    let l2 = l.detached(b.raw(), parent);
    assert forall|again: usize| l2.answers_parent(b.raw(), again) implies again == 0 by {
        if again != 0 {
            assert(l2.is_attached(b.raw()));
        }
    }
}

/// A block just created before `b` is empty: the engine answers null for
/// its first and last instruction and for its terminator, which the handle
/// turns into none.
pub proof fn law_new_block_is_empty(l: IrLayout, f: usize, b: BasicBlock, x: usize)
    requires
        l.wf(),
        l.holds(f, b.raw()),
        l.is_fresh(x),
    ensures
        l.inserted_before(f, b.raw(), x).first_instruction(x) == 0,
        l.inserted_before(f, b.raw(), x).last_instruction(x) == 0,
        l.inserted_before(f, b.raw(), x).terminator(x) == 0,
        forall|h: Option<InstructionValue>|
            wraps_instruction(h, l.inserted_before(f, b.raw(), x).first_instruction(x)) ==> h is None,
        forall|h: Option<InstructionValue>|
            wraps_instruction(h, l.inserted_before(f, b.raw(), x).last_instruction(x)) ==> h is None,
        forall|h: Option<InstructionValue>|
            wraps_instruction(h, l.inserted_before(f, b.raw(), x).terminator(x)) ==> h is None,
{
}

/// Where block `b` is moved just after block `a` of the same function, the
/// block after `a` is `b` and the block before `b` is `a`.
pub proof fn law_move_after_links(l: IrLayout, f: usize, a: BasicBlock, b: BasicBlock)
    requires
        l.wf(),
        l.holds(f, a.raw()),
        l.holds(f, b.raw()),
        a != b,
    ensures
        l.moved_after(f, b.raw(), a.raw()).wf(),
        l.moved_after(f, b.raw(), a.raw()).answers_next(a.raw(), b.raw()),
        l.moved_after(f, b.raw(), a.raw()).answers_previous(b.raw(), a.raw()),
        forall|r: usize, h: Option<BasicBlock>|
            l.moved_after(f, b.raw(), a.raw()).answers_next(a.raw(), r) && wraps_block(h, r)
                ==> h == Some(b),
        forall|r: usize, h: Option<BasicBlock>|
            l.moved_after(f, b.raw(), a.raw()).answers_previous(b.raw(), r) && wraps_block(h, r)
                ==> h == Some(a),
{
    let s = l.functions[f];
    let (x, y) = (a.raw(), b.raw());
    assert(x != y);
    lemma_one_place(s, y);
    let i = s.index_of(y);
    lemma_remove_distinct(s, i);
    let s1 = s.remove(i);
    assert(s1.contains(x));
    lemma_one_place(s1, x);
    let k = s1.index_of(x);
    lemma_insert_distinct(s1, k + 1, y);
    s1.insert_ensures(k + 1, y);
    let t = s1.insert(k + 1, y);
    lemma_wf_replace(l, f, t, y, l.instructions);
    let l2 = l.moved_after(f, y, x);
    assert(l2.functions[f] == t);
    assert(t[k] == x);
    assert(l2.functions[f][k] == x);
    assert(l2.follows(x, y));
    assert(x != 0 && y != 0);
    lemma_answers_of_follows(l2, x, y);
}

/// Where block `b` is moved just before block `a` of the same function, the
/// block after `b` is `a` and the block before `a` is `b`.
pub proof fn law_move_before_links(l: IrLayout, f: usize, a: BasicBlock, b: BasicBlock)
    requires
        l.wf(),
        l.holds(f, a.raw()),
        l.holds(f, b.raw()),
        a != b,
    ensures
        l.moved_before(f, b.raw(), a.raw()).wf(),
        l.moved_before(f, b.raw(), a.raw()).answers_next(b.raw(), a.raw()),
        l.moved_before(f, b.raw(), a.raw()).answers_previous(a.raw(), b.raw()),
        forall|r: usize, h: Option<BasicBlock>|
            l.moved_before(f, b.raw(), a.raw()).answers_next(b.raw(), r) && wraps_block(h, r)
                ==> h == Some(a),
        forall|r: usize, h: Option<BasicBlock>|
            l.moved_before(f, b.raw(), a.raw()).answers_previous(a.raw(), r) && wraps_block(h, r)
                ==> h == Some(b),
{
    let s = l.functions[f];
    let (x, y) = (a.raw(), b.raw());
    assert(x != y);
    lemma_one_place(s, y);
    let i = s.index_of(y);
    lemma_remove_distinct(s, i);
    let s1 = s.remove(i);
    assert(s1.contains(x));
    lemma_one_place(s1, x);
    let k = s1.index_of(x);
    lemma_insert_distinct(s1, k, y);
    s1.insert_ensures(k, y);
    let t = s1.insert(k, y);
    lemma_wf_replace(l, f, t, y, l.instructions);
    let l2 = l.moved_before(f, y, x);
    assert(l2.functions[f] == t);
    assert(t[k + 1] == x);
    assert(l2.functions[f][k] == y);
    assert(l2.follows(y, x));
    assert(x != 0 && y != 0);
    lemma_answers_of_follows(l2, y, x);
}

/// Creating block `x` just before block `b`: the block after `x` is `b`,
/// the block before `b` is `x`, and `x` has the parent of `b`.
pub proof fn law_prepend_links(l: IrLayout, f: usize, b: BasicBlock, x: usize)
    requires
        l.wf(),
        l.holds(f, b.raw()),
        l.is_fresh(x),
    ensures
        l.inserted_before(f, b.raw(), x).wf(),
        forall|r: usize, h: Option<BasicBlock>|
            l.inserted_before(f, b.raw(), x).answers_next(x, r) && wraps_block(h, r) ==> h
                == Some(b),
        forall|r: usize| l.inserted_before(f, b.raw(), x).answers_previous(b.raw(), r) ==> r == x,
        l.inserted_before(f, b.raw(), x).answers_previous(b.raw(), x),
        l.inserted_before(f, b.raw(), x).answers_parent(x, f),
        l.inserted_before(f, b.raw(), x).answers_parent(b.raw(), f),
        forall|r: usize|
            l.inserted_before(f, b.raw(), x).answers_parent(x, r) <==> l.inserted_before(
                f,
                b.raw(),
                x,
            ).answers_parent(b.raw(), r),
{
    let s = l.functions[f];
    let y = b.raw();
    lemma_one_place(s, y);
    let k = s.index_of(y);
    if l.is_attached(x) {
        let g = choose|g: usize| l.holds(g, x);
        assert(l.instructions.contains_key(x));
    }
    assert(!s.contains(x)) by {
        if s.contains(x) {
            assert(l.holds(f, x));
        }
    }
    lemma_insert_distinct(s, k, x);
    s.insert_ensures(k, x);
    let t = s.insert(k, x);
    let ins = l.instructions.insert(x, Seq::empty());
    lemma_wf_replace(l, f, t, x, ins);
    let l2 = l.inserted_before(f, y, x);
    assert(l2.functions[f] == t);
    assert(t[k + 1] == y);
    assert(l2.functions[f][k] == x);
    assert(l2.follows(x, y));
    assert(y != 0);
    lemma_answers_of_follows(l2, x, y);
    assert(t.contains(x) && t.contains(y));
    assert(l2.holds(f, x));
    assert(l2.holds(f, y));
    lemma_answers_of_holds(l2, f, x);
    lemma_answers_of_holds(l2, f, y);
}

/// In a function of blocks `a`, `b`, `c` in that order, moving `a` after
/// `c` gives the order `b`, `c`, `a`: nothing comes before `b`, and `a`
/// comes after `c`.
pub proof fn law_move_first_to_end(
    l: IrLayout,
    f: usize,
    a: BasicBlock,
    b: BasicBlock,
    c: BasicBlock,
)
    requires
        l.wf(),
        l.functions.contains_key(f),
        l.functions[f] == seq![a.raw(), b.raw(), c.raw()],
    ensures
        l.moved_after(f, a.raw(), c.raw()).functions[f] == seq![b.raw(), c.raw(), a.raw()],
        forall|r: usize, h: Option<BasicBlock>|
            l.moved_after(f, a.raw(), c.raw()).answers_previous(b.raw(), r) && wraps_block(h, r)
                ==> h is None,
        forall|r: usize, h: Option<BasicBlock>|
            l.moved_after(f, a.raw(), c.raw()).answers_next(c.raw(), r) && wraps_block(h, r)
                ==> h == Some(a),
{
    let s = l.functions[f];
    assert(s.no_duplicates());
    assert(s[0] == a.raw() && s[1] == b.raw() && s[2] == c.raw());
    assert(s.contains(c.raw()));
    assert(a != c);
    assert(l.holds(f, a.raw()) && l.holds(f, c.raw()));
    law_move_after_links(l, f, c, a);
    lemma_one_place(s, a.raw());
    let s1 = s.remove(0);
    assert(s1 =~= seq![b.raw(), c.raw()]);
    lemma_one_place(s1, c.raw());
    assert(s1.index_of(c.raw()) == 1);
    let l2 = l.moved_after(f, a.raw(), c.raw());
    assert(l2.functions[f] =~= seq![b.raw(), c.raw(), a.raw()]);
    assert forall|r: usize| l2.answers_previous(b.raw(), r) implies r == 0 by {
        if r != 0 {
            let (g, i) = choose|g: usize, i: int|
                #![trigger l2.functions[g][i]]
                l2.functions.contains_key(g) && 0 <= i && i + 1 < l2.functions[g].len()
                    && l2.functions[g][i] == r && l2.functions[g][i + 1] == b.raw();
            assert(l2.holds(g, b.raw()));
            assert(l2.functions[f][0] == b.raw());
            assert(l2.holds(f, b.raw()));
            assert(g == f);
        }
    }
}

/// A block without a terminator gets one by appending a terminating
/// instruction: the engine answered null before, and answers that
/// instruction after.
pub proof fn law_appended_terminator(l: IrLayout, d: BasicBlock, i: usize)
    requires
        l.wf(),
        l.instructions.contains_key(d.raw()),
        l.terminator(d.raw()) == 0,
        l.terminators.contains(i),
        i != 0,
    ensures
        forall|h: Option<InstructionValue>|
            wraps_instruction(h, l.terminator(d.raw())) ==> h is None,
        l.appended(d.raw(), i).terminator(d.raw()) == i,
        forall|h: Option<InstructionValue>|
            wraps_instruction(h, l.appended(d.raw(), i).terminator(d.raw())) ==> (h matches Some(
                v,
            ) && v.raw() == i),
{
    assert(l.appended(d.raw(), i).instructions[d.raw()].last() == i);
}

} // verus!
