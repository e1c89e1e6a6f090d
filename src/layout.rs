//! Sizing constraints and the two-pass solver that splits a container's extent
//! among its children.
use vstd::prelude::*;

verus! {

#[derive(Clone, Copy, PartialEq, Eq, Structural, Debug)]
pub enum SizeType {
    Percentage,
    Constant,
}

/// How much of the split axis a child asks for: a fixed length, or a percentage of
/// what the fixed children left, kept within `[min_length, max_length]`.
#[derive(Clone, Copy, PartialEq, Eq, Structural, Debug)]
pub struct Constraint {
    pub size_type: SizeType,
    pub size: usize,
    pub min_length: usize,
    pub max_length: usize,
}

#[derive(Clone, Copy, PartialEq, Eq, Structural, Debug)]
pub enum Alignment {
    Start,
    End,
}

impl Constraint {
    /// `size` percent of the remaining extent, bounded by `min_length` and
    /// `max_length`; refused when the bounds are crossed or the percentage exceeds 100.
    pub fn percentage(size: usize, max_length: usize, min_length: usize) -> (c: Option<Self>)
        ensures
            c is None <==> min_length > max_length || size > 100,
            c matches Some(c) ==> c == (Constraint { size_type: SizeType::Percentage, size, min_length, max_length }),
    {
        if min_length > max_length || size > 100 {
            None
        } else {
            Some(Constraint { size_type: SizeType::Percentage, size, min_length, max_length })
        }
    }

    pub open spec fn constant_spec(size: usize) -> Constraint {
        Constraint { size_type: SizeType::Constant, size, min_length: size, max_length: size }
    }

    /// Exactly `size` cells.
    pub fn constant(size: usize) -> (c: Self)
        ensures
            c == Constraint::constant_spec(size),
    {
        Constraint { size_type: SizeType::Constant, size, min_length: size, max_length: size }
    }
}

/// The length granted to a child with constraint `c` when `rem` cells are free and
/// percentages are taken of `pool`; `None` when the child does not fit.
pub open spec fn grant(c: Constraint, pool: nat, rem: nat) -> Option<nat> {
    if c.size_type == SizeType::Constant {
        if rem >= c.min_length {
            Some(c.min_length as nat)
        } else {
            None
        }
    } else {
        let want = (pool * c.size / 100) as nat;
        if rem >= want && want >= c.max_length {
            Some(c.max_length as nat)
        } else if rem >= want && want >= c.min_length {
            Some(want)
        } else if rem >= c.min_length {
            Some(c.min_length as nat)
        } else {
            None
        }
    }
}

pub open spec fn granted(g: Option<nat>) -> nat {
    match g {
        Some(n) => n,
        None => 0,
    }
}

/// In the pass over the children of kind `kind`, which starts with `start` free
/// cells, the cells still free before child `i`.
pub open spec fn free_before(cs: Seq<Constraint>, kind: SizeType, pool: nat, start: nat, i: int) -> nat
    decreases i,
{
    if i <= 0 {
        start
    } else {
        let prev = free_before(cs, kind, pool, start, i - 1);
        let g = if cs[i - 1].size_type == kind {
            grant(cs[i - 1], pool, prev)
        } else {
            None
        };
        (prev - granted(g)) as nat
    }
}

/// What the pass over the children of kind `kind` grants to child `i`.
pub open spec fn pass_grant(cs: Seq<Constraint>, kind: SizeType, pool: nat, start: nat, i: int) -> Option<nat> {
    if cs[i].size_type == kind {
        grant(cs[i], pool, free_before(cs, kind, pool, start, i))
    } else {
        None
    }
}

/// What the fixed children leave of `ext`: the pool of the proportional pass.
pub open spec fn fixed_left(cs: Seq<Constraint>, ext: nat) -> nat {
    free_before(cs, SizeType::Constant, 0, ext, cs.len() as int)
}

/// The length allocated to child `i`: fixed children first, in order, then
/// proportional children, in order, out of what the fixed ones left.
pub open spec fn allotted(cs: Seq<Constraint>, ext: nat, i: int) -> Option<nat> {
    if cs[i].size_type == SizeType::Constant {
        pass_grant(cs, SizeType::Constant, 0, ext, i)
    } else {
        pass_grant(cs, SizeType::Percentage, fixed_left(cs, ext), fixed_left(cs, ext), i)
    }
}

/// Cells allocated to the children before `i`.
pub open spec fn used(cs: Seq<Constraint>, ext: nat, i: int) -> nat
    decreases i,
{
    if i <= 0 {
        0
    } else {
        used(cs, ext, i - 1) + granted(allotted(cs, ext, i - 1))
    }
}

/// Cells taken by the placed children before `i` that align to the start.
pub open spec fn lead(cs: Seq<Constraint>, al: Seq<Alignment>, ext: nat, i: int) -> nat
    decreases i,
{
    if i <= 0 {
        0
    } else if al[i - 1] == Alignment::Start {
        lead(cs, al, ext, i - 1) + granted(allotted(cs, ext, i - 1))
    } else {
        lead(cs, al, ext, i - 1)
    }
}

/// Cells taken by the placed children from `i` on that align to the end.
pub open spec fn trail(cs: Seq<Constraint>, al: Seq<Alignment>, ext: nat, i: int) -> nat
    decreases cs.len() - i,
{
    if i >= cs.len() || i < 0 {
        0
    } else if al[i] == Alignment::End {
        granted(allotted(cs, ext, i)) + trail(cs, al, ext, i + 1)
    } else {
        trail(cs, al, ext, i + 1)
    }
}

/// Where child `i` goes along the split axis, as (offset, length), or `None` when it
/// is dropped. Start-aligned children are packed from the leading edge in order,
/// end-aligned ones from the trailing edge in reverse order.
pub open spec fn slot(cs: Seq<Constraint>, al: Seq<Alignment>, ext: nat, i: int) -> Option<(int, int)> {
    match allotted(cs, ext, i) {
        None => None,
        Some(n) => if al[i] == Alignment::Start {
            Some((lead(cs, al, ext, i) as int, n as int))
        } else {
            Some((ext - trail(cs, al, ext, i), n as int))
        },
    }
}

pub open spec fn slot_of(s: Option<(usize, usize)>) -> Option<(int, int)> {
    match s {
        Some((o, n)) => Some((o as int, n as int)),
        None => None,
    }
}

proof fn lemma_grant_fits(c: Constraint, pool: nat, rem: nat)
    ensures
        granted(grant(c, pool, rem)) <= rem,
{
}

/// The cells allocated so far are what the two passes have consumed.
proof fn lemma_used(cs: Seq<Constraint>, ext: nat, i: int)
    requires
        0 <= i <= cs.len(),
    ensures
        used(cs, ext, i) == (ext - free_before(cs, SizeType::Constant, 0, ext, i)) + (fixed_left(cs, ext)
            - free_before(cs, SizeType::Percentage, fixed_left(cs, ext), fixed_left(cs, ext), i)),
    decreases i,
{
    let p = fixed_left(cs, ext);
    if i > 0 {
        lemma_used(cs, ext, i - 1);
        lemma_grant_fits(cs[i - 1], 0, free_before(cs, SizeType::Constant, 0, ext, i - 1));
        lemma_grant_fits(cs[i - 1], p, free_before(cs, SizeType::Percentage, p, p, i - 1));
    }
}

proof fn lemma_used_mono(cs: Seq<Constraint>, ext: nat, i: int, j: int)
    requires
        i <= j,
    ensures
        used(cs, ext, i) <= used(cs, ext, j),
    decreases j - i,
{
    if i < j {
        lemma_used_mono(cs, ext, i, j - 1);
    }
}

proof fn lemma_lead(cs: Seq<Constraint>, al: Seq<Alignment>, ext: nat, i: int)
    ensures
        lead(cs, al, ext, i) <= used(cs, ext, i),
    decreases i,
{
    if i > 0 {
        lemma_lead(cs, al, ext, i - 1);
    }
}

proof fn lemma_trail(cs: Seq<Constraint>, al: Seq<Alignment>, ext: nat, i: int)
    requires
        0 <= i <= cs.len(),
    ensures
        used(cs, ext, i) + trail(cs, al, ext, i) <= used(cs, ext, cs.len() as int),
    decreases cs.len() - i,
{
    if i < cs.len() {
        lemma_trail(cs, al, ext, i + 1);
    }
}

/// Every placed child lies within `[0, ext]`.
pub proof fn lemma_slot_within(cs: Seq<Constraint>, al: Seq<Alignment>, ext: nat, i: int)
    requires
        0 <= i < cs.len(),
    ensures
        slot(cs, al, ext, i) matches Some((o, n)) ==> 0 <= o && o + n <= ext,
{
    let p = fixed_left(cs, ext);
    let n = cs.len() as int;
    lemma_used(cs, ext, n);
    lemma_used_mono(cs, ext, i + 1, n);
    lemma_lead(cs, al, ext, i);
    lemma_trail(cs, al, ext, i);
}

pub open spec fn nat_of(g: Option<usize>) -> Option<nat> {
    match g {
        Some(n) => Some(n as nat),
        None => None,
    }
}

fn grant_exec(c: Constraint, pool: usize, rem: usize) -> (r: Option<usize>)
    ensures
        nat_of(r) == grant(c, pool as nat, rem as nat),
{
    if c.size_type == SizeType::Constant {
        if rem >= c.min_length {
            Some(c.min_length)
        } else {
            None
        }
    } else {
        assert((pool as u128) * (c.size as u128) <= u128::MAX) by (nonlinear_arith)
            requires
                pool <= u64::MAX,
                c.size <= u64::MAX,
        ;
        let want = (pool as u128) * (c.size as u128) / 100;
        if rem as u128 >= want && want >= c.max_length as u128 {
            Some(c.max_length)
        } else if rem as u128 >= want && want >= c.min_length as u128 {
            Some(want as usize)
        } else if rem >= c.min_length {
            Some(c.min_length)
        } else {
            None
        }
    }
}

/// Splits `extent` cells among children with constraints `cons` and alignments
/// `aligns`: entry `i` is child `i`'s (offset, length), or `None` if it is dropped.
pub fn split_extent(cons: &Vec<Constraint>, aligns: &Vec<Alignment>, extent: usize) -> (out: Vec<Option<(usize, usize)>>)
    requires
        cons.len() == aligns.len(),
    ensures
        out@.len() == cons.len(),
        forall|i: int| 0 <= i < cons.len() ==> slot_of(#[trigger] out@[i]) == slot(cons@, aligns@, extent as nat, i),
        forall|i: int| 0 <= i < cons.len() ==> (#[trigger] out@[i] matches Some((o, n)) ==> o + n <= extent),
{
    let ghost cs = cons@;
    let ghost al = aligns@;
    let ghost ext = extent as nat;
    let n = cons.len();
    // Fixed children.
    let mut rem = extent;
    let mut fixed: Vec<Option<usize>> = Vec::new();
    let mut i: usize = 0;
    while i < n
        invariant
            i <= n == cs.len(),
            cs == cons@,
            ext == extent as nat,
            fixed@.len() == i,
            rem == free_before(cs, SizeType::Constant, 0, ext, i as int),
            forall|j: int| 0 <= j < i ==> nat_of(#[trigger] fixed@[j]) == pass_grant(cs, SizeType::Constant, 0, ext, j),
        decreases n - i,
    {
        let g = if cons[i].size_type == SizeType::Constant {
            grant_exec(cons[i], 0, rem)
        } else {
            None
        };
        proof {
            lemma_grant_fits(cs[i as int], 0, rem as nat);
        }
        match g {
            Some(len) => rem = rem - len,
            None => {},
        }
        fixed.push(g);
        i += 1;
    }
    // Proportional children, out of what the fixed ones left.
    let pool = rem;
    let mut sizes: Vec<Option<usize>> = Vec::new();
    let mut i: usize = 0;
    while i < n
        invariant
            i <= n == cs.len() == fixed@.len(),
            cs == cons@,
            ext == extent as nat,
            pool == fixed_left(cs, ext),
            sizes@.len() == i,
            rem == free_before(cs, SizeType::Percentage, pool as nat, pool as nat, i as int),
            forall|j: int| 0 <= j < n ==> nat_of(#[trigger] fixed@[j]) == pass_grant(cs, SizeType::Constant, 0, ext, j),
            forall|j: int| 0 <= j < i ==> nat_of(#[trigger] sizes@[j]) == allotted(cs, ext, j),
        decreases n - i,
    {
        let g = if cons[i].size_type == SizeType::Percentage {
            grant_exec(cons[i], pool, rem)
        } else {
            None
        };
        proof {
            lemma_grant_fits(cs[i as int], pool as nat, rem as nat);
        }
        match g {
            Some(len) => rem = rem - len,
            None => {},
        }
        if cons[i].size_type == SizeType::Constant {
            sizes.push(fixed[i]);
        } else {
            sizes.push(g);
        }
        i += 1;
    }
    proof {
        lemma_used(cs, ext, n as int);
        lemma_trail(cs, al, ext, 0);
    }
    // Cells taken by the end-aligned children.
    let mut total_trail: usize = 0;
    let mut k: usize = n;
    while k > 0
        invariant
            k <= n == cs.len() == sizes@.len() == al.len(),
            cs == cons@,
            ext == extent as nat,
            al == aligns@,
            forall|j: int| 0 <= j < n ==> nat_of(#[trigger] sizes@[j]) == allotted(cs, ext, j),
            total_trail == trail(cs, al, ext, k as int),
            used(cs, ext, 0) + trail(cs, al, ext, 0) <= used(cs, ext, n as int),
            used(cs, ext, n as int) <= ext,
        decreases k,
    {
        k -= 1;
        proof {
            lemma_trail(cs, al, ext, k as int);
            lemma_used_mono(cs, ext, 0, k as int);
            assert(nat_of(sizes@[k as int]) == allotted(cs, ext, k as int));
        }
        if aligns[k] == Alignment::End {
            match sizes[k] {
                Some(len) => total_trail = total_trail + len,
                None => {},
            }
        }
    }
    // Offsets.
    let mut out: Vec<Option<(usize, usize)>> = Vec::new();
    let mut lead_cells: usize = 0;
    let mut trail_cells: usize = total_trail;
    let mut i: usize = 0;
    while i < n
        invariant
            i <= n == cs.len() == sizes@.len() == al.len(),
            cs == cons@,
            ext == extent as nat,
            al == aligns@,
            forall|j: int| 0 <= j < n ==> nat_of(#[trigger] sizes@[j]) == allotted(cs, ext, j),
            lead_cells == lead(cs, al, ext, i as int),
            trail_cells == trail(cs, al, ext, i as int),
            out@.len() == i,
            forall|j: int| 0 <= j < i ==> slot_of(#[trigger] out@[j]) == slot(cs, al, ext, j),
            forall|j: int| 0 <= j < i ==> (#[trigger] out@[j] matches Some((o, n)) ==> o + n <= extent),
        decreases n - i,
    {
        proof {
            lemma_slot_within(cs, al, ext, i as int);
            lemma_trail(cs, al, ext, i as int);
            lemma_used(cs, ext, n as int);
            lemma_used_mono(cs, ext, i as int, n as int);
            lemma_used_mono(cs, ext, i + 1, n as int);
            lemma_lead(cs, al, ext, i + 1);
            assert(nat_of(sizes@[i as int]) == allotted(cs, ext, i as int));
        }
        let s = match sizes[i] {
            None => None,
            Some(len) => {
                if aligns[i] == Alignment::Start {
                    let o = lead_cells;
                    lead_cells = lead_cells + len;
                    Some((o, len))
                } else {
                    let o = extent - trail_cells;
                    trail_cells = trail_cells - len;
                    Some((o, len))
                }
            },
        };
        out.push(s);
        i += 1;
        assert(slot_of(out@[i - 1]) == slot(cs, al, ext, i - 1));
    }
    out
}

} // verus!
