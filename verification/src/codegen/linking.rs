//! The canonical set of generated blocks that dispatch can reach.
use vstd::prelude::*;

use crate::cfg::partition::{sorted_distinct, strictly_increasing};
use crate::cfg::BlockId;
use crate::decoder::Mode;
use crate::semantic_ir::validate::done_before;
use crate::semantic_ir::{SemanticBlock, SemanticProgram};

use super::common::{block_name, block_name_text, mode_bool};

verus! {

/// A generated block that dispatch can enter: where it starts, in which
/// mode, and the name of its function.
#[derive(Debug)]
pub struct LinkedBlock {
    pub address: u32,
    pub thumb: bool,
    pub symbol: String,
}

impl LinkedBlock {
    /// The dispatch key: address and mode.
    pub fn key(&self) -> (r: (u32, bool))
        ensures
            r == (self.address, self.thumb),
    {
        (self.address, self.thumb)
    }
}

pub open spec fn linked_view(l: LinkedBlock) -> (u32, bool, Seq<char>) {
    (l.address, l.thumb, l.symbol@)
}

/// The linked form of a semantic block.
pub open spec fn linked_of(b: SemanticBlock) -> (u32, bool, Seq<char>) {
    (b.address, b.mode == Mode::Thumb, block_name_text(b.id.0 as nat, b.mode, b.address))
}

/// The dispatch key as one number: address, then mode.
pub open spec fn dispatch_code(address: u32, thumb: bool) -> int {
    address * 2 + if thumb {
        1int
    } else {
        0int
    }
}

/// No two blocks of the program start at the same address in the same mode.
pub open spec fn block_keys_distinct(sp: SemanticProgram) -> bool {
    forall|f1: int, k1: int, f2: int, k2: int|
        0 <= f1 < sp.functions@.len() && 0 <= k1 < sp.functions@[f1].blocks@.len() && 0 <= f2 < sp.functions@.len() && 0 <= k2
            < sp.functions@[f2].blocks@.len() && (f1 != f2 || k1 != k2) ==> ((#[trigger] sp.functions@[f1].blocks@[k1]).address
            != (#[trigger] sp.functions@[f2].blocks@[k2]).address || sp.functions@[f1].blocks@[k1].mode != sp.functions@[f2].blocks@[k2].mode)
}

/// `x` is the linked form of some block of the program.
pub open spec fn links_some_block(sp: SemanticProgram, x: (u32, bool, Seq<char>)) -> bool {
    exists|f: int, k: int|
        0 <= f < sp.functions@.len() && 0 <= k < sp.functions@[f].blocks@.len() && x == linked_of(#[trigger] sp.functions@[f].blocks@[k])
}

/// `x` occurs in `l`.
pub open spec fn listed(l: Seq<(u32, bool, Seq<char>)>, x: (u32, bool, Seq<char>)) -> bool {
    exists|i: int| 0 <= i < l.len() && #[trigger] l[i] == x
}

/// `l` lists the linked form of every block of the program, each once, in
/// ascending order of address and then mode.
pub open spec fn linked_ok(sp: SemanticProgram, l: Seq<(u32, bool, Seq<char>)>) -> bool {
    &&& forall|i: int, j: int| 0 <= i < j < l.len() ==> dispatch_code(l[i].0, l[i].1) < dispatch_code(l[j].0, l[j].1)
    &&& forall|i: int| 0 <= i < l.len() ==> links_some_block(sp, #[trigger] l[i])
    &&& forall|f: int, k: int|
        0 <= f < sp.functions@.len() && 0 <= k < sp.functions@[f].blocks@.len() ==> listed(l, linked_of(#[trigger] sp.functions@[f].blocks@[k]))
}

/// Entries strictly ascending by dispatch code.
pub open spec fn codes_ascending(l: Seq<(u32, bool, Seq<char>)>) -> bool {
    forall|i: int, j: int| 0 <= i < j < l.len() ==> dispatch_code(l[i].0, l[i].1) < dispatch_code(l[j].0, l[j].1)
}

proof fn lemma_same_listing(a: Seq<(u32, bool, Seq<char>)>, b: Seq<(u32, bool, Seq<char>)>)
    requires
        codes_ascending(a),
        codes_ascending(b),
        forall|x: (u32, bool, Seq<char>)| listed(a, x) <==> listed(b, x),
    ensures
        a == b,
    decreases a.len(),
{
    if a.len() == 0 {
        if b.len() > 0 {
            assert(listed(b, b[0]));
        }
        assert(a =~= b);
    } else {
        assert(listed(a, a[0]));
        let j = choose|j: int| 0 <= j < b.len() && #[trigger] b[j] == a[0];
        assert(listed(b, b[0]));
        let i = choose|i: int| 0 <= i < a.len() && #[trigger] a[i] == b[0];
        if i > 0 {
            assert(dispatch_code(a[0].0, a[0].1) < dispatch_code(a[i].0, a[i].1));
            if j > 0 {
                assert(dispatch_code(b[0].0, b[0].1) < dispatch_code(b[j].0, b[j].1));
            }
            assert(false);
        }
        let a1 = a.drop_first();
        let b1 = b.drop_first();
        assert forall|x: (u32, bool, Seq<char>)| listed(a1, x) <==> listed(b1, x) by {
            if listed(a1, x) {
                let k = choose|k: int| 0 <= k < a1.len() && #[trigger] a1[k] == x;
                assert(a[k + 1] == x);
                assert(listed(a, x));
                let m = choose|m: int| 0 <= m < b.len() && #[trigger] b[m] == x;
                assert(dispatch_code(a[0].0, a[0].1) < dispatch_code(a[k + 1].0, a[k + 1].1));
                assert(m != 0);
                assert(b1[m - 1] == x);
            }
            if listed(b1, x) {
                let k = choose|k: int| 0 <= k < b1.len() && #[trigger] b1[k] == x;
                assert(b[k + 1] == x);
                assert(listed(b, x));
                let m = choose|m: int| 0 <= m < a.len() && #[trigger] a[m] == x;
                assert(dispatch_code(b[0].0, b[0].1) < dispatch_code(b[k + 1].0, b[k + 1].1));
                assert(m != 0);
                assert(a1[m - 1] == x);
            }
        }
        lemma_same_listing(a1, b1);
        assert(a =~= b) by {
            assert forall|k: int| 0 <= k < a.len() implies a[k] == b[k] by {
                if k > 0 {
                    assert(a[k] == a1[k - 1]);
                    assert(b[k] == b1[k - 1]);
                }
            }
        }
    }
}

/// There is one listing of a program's linked blocks: any two lists that
/// each hold every block's linked form, nothing else, in ascending order of
/// address and then mode, are the same list. So the dispatcher and the link
/// predicate, each generated from such a list, name the same targets in the
/// same order.
pub proof fn law_linked_listing_unique(sp: SemanticProgram, a: Seq<(u32, bool, Seq<char>)>, b: Seq<(u32, bool, Seq<char>)>)
    requires
        linked_ok(sp, a),
        linked_ok(sp, b),
    ensures
        a == b,
{
    assert forall|x: (u32, bool, Seq<char>)| listed(a, x) <==> listed(b, x) by {
        if listed(a, x) {
            let k = choose|k: int| 0 <= k < a.len() && #[trigger] a[k] == x;
            assert(links_some_block(sp, a[k]));
            let (f, q) = choose|f: int, q: int|
                0 <= f < sp.functions@.len() && 0 <= q < sp.functions@[f].blocks@.len() && a[k] == linked_of(#[trigger] sp.functions@[f].blocks@[q]);
            assert(listed(b, linked_of(sp.functions@[f].blocks@[q])));
        }
        if listed(b, x) {
            let k = choose|k: int| 0 <= k < b.len() && #[trigger] b[k] == x;
            assert(links_some_block(sp, b[k]));
            let (f, q) = choose|f: int, q: int|
                0 <= f < sp.functions@.len() && 0 <= q < sp.functions@[f].blocks@.len() && b[k] == linked_of(#[trigger] sp.functions@[f].blocks@[q]);
            assert(listed(a, linked_of(sp.functions@[f].blocks@[q])));
        }
    }
    lemma_same_listing(a, b);
}

/// The listing of a program's linked blocks (unique by
/// `law_linked_listing_unique`).
pub open spec fn canonical_links(sp: SemanticProgram) -> Seq<(u32, bool, Seq<char>)> {
    choose|l: Seq<(u32, bool, Seq<char>)>| linked_ok(sp, l)
}

pub open spec fn linked_views(v: Seq<LinkedBlock>) -> Seq<(u32, bool, Seq<char>)> {
    v.map_values(|l: LinkedBlock| linked_view(l))
}

fn code_of(address: u32, thumb: bool) -> (r: u64)
    ensures
        r == dispatch_code(address, thumb),
{
    address as u64 * 2 + if thumb {
        1
    } else {
        0
    }
}


/// What identifies a block's generated function: address, mode and id.
pub open spec fn site_of(b: SemanticBlock) -> (u32, Mode, usize) {
    (b.address, b.mode, b.id.0)
}

pub open spec fn linked_of_site(t: (u32, Mode, usize)) -> (u32, bool, Seq<char>) {
    (t.0, t.1 == Mode::Thumb, block_name_text(t.2 as nat, t.1, t.0))
}

pub open spec fn site_code(t: (u32, Mode, usize)) -> int {
    dispatch_code(t.0, t.1 == Mode::Thumb)
}

/// What gathering knows once the blocks before `(f0, k0)` are listed: item
/// `j` is the site of block `origin[j]`, and each listed block sits at
/// `pos` of its place.
pub open spec fn gathered(
    sp: SemanticProgram,
    f0: int,
    k0: int,
    sites: Seq<(u32, Mode, usize)>,
    origin: Seq<(int, int)>,
    pos: Map<(int, int), int>,
) -> bool {
    &&& origin.len() == sites.len()
    &&& forall|j: int|
        0 <= j < sites.len() ==> done_before(sp, f0, k0, (#[trigger] origin[j]).0, origin[j].1) && sites[j] == site_of(
            sp.functions@[origin[j].0].blocks@[origin[j].1],
        )
    &&& forall|g: int, k: int|
        #[trigger] done_before(sp, f0, k0, g, k) ==> pos.contains_key((g, k)) && 0 <= pos[(g, k)] < sites.len() && origin[pos[(g, k)]]
            == (g, k)
}

fn gather_function(
    sp: &SemanticProgram,
    f: usize,
    sites: &mut Vec<(u32, Mode, usize)>,
    Ghost(origin0): Ghost<Seq<(int, int)>>,
    Ghost(pos0): Ghost<Map<(int, int), int>>,
) -> (r: Ghost<(Seq<(int, int)>, Map<(int, int), int>)>)
    requires
        f < sp.functions@.len(),
        gathered(*sp, f as int, 0, old(sites)@, origin0, pos0),
    ensures
        gathered(*sp, f + 1, 0, final(sites)@, r@.0, r@.1),
{
    let ghost mut origin = origin0;
    let ghost mut pos = pos0;
    let blocks = &sp.functions[f].blocks;
    let mut k: usize = 0;
    while k < blocks.len()
        invariant
            f < sp.functions@.len(),
            *blocks == sp.functions@[f as int].blocks,
            k <= blocks@.len(),
            gathered(*sp, f as int, k as int, sites@, origin, pos),
        decreases blocks@.len() - k,
    {
        let block = &blocks[k];
        let ghost n = sites@.len() as int;
        let ghost before_origin = origin;
        let ghost before_pos = pos;
        sites.push((block.address, block.mode, block.id.0));
        proof {
            origin = origin.push((f as int, k as int));
            pos = pos.insert((f as int, k as int), n);
            assert(origin.len() == sites@.len());
            assert forall|j: int| 0 <= j < sites@.len() implies done_before(*sp, f as int, k + 1, (#[trigger] origin[j]).0, origin[j].1)
                && sites@[j] == site_of(sp.functions@[origin[j].0].blocks@[origin[j].1]) by {
                if j < n {
                    assert(origin[j] == before_origin[j]);
                    assert(done_before(*sp, f as int, k as int, origin[j].0, origin[j].1));
                } else {
                    assert(origin[j] == (f as int, k as int));
                    assert(sites@[j] == (block.address, block.mode, block.id.0));
                }
            }
            assert forall|g: int, kk: int| #[trigger] done_before(*sp, f as int, k + 1, g, kk) implies pos.contains_key((g, kk)) && 0 <= pos[(g, kk)] < sites@.len()
                && origin[pos[(g, kk)]] == (g, kk) by {
                if g != f || kk != k {
                    assert(done_before(*sp, f as int, k as int, g, kk));
                    assert(before_pos.contains_key((g, kk)));
                    assert(pos[(g, kk)] == before_pos[(g, kk)]);
                    assert(origin[before_pos[(g, kk)]] == before_origin[before_pos[(g, kk)]]);
                } else {
                    assert(pos[(g, kk)] == n);
                    assert(origin[n] == (g, kk));
                }
            }
            assert(gathered(*sp, f as int, k + 1, sites@, origin, pos));
        }
        k = k + 1;
    }
    proof {
        assert forall|j: int| 0 <= j < sites@.len() implies done_before(*sp, f + 1, 0, (#[trigger] origin[j]).0, origin[j].1) && sites@[j]
            == site_of(sp.functions@[origin[j].0].blocks@[origin[j].1]) by {
            assert(done_before(*sp, f as int, k as int, origin[j].0, origin[j].1));
        }
        assert forall|g: int, kk: int| #[trigger] done_before(*sp, f + 1, 0, g, kk) implies pos.contains_key((g, kk)) && 0 <= pos[(g, kk)] < sites@.len()
            && origin[pos[(g, kk)]] == (g, kk) by {
            assert(done_before(*sp, f as int, k as int, g, kk));
        }
    }
    Ghost((origin, pos))
}

fn gather(sp: &SemanticProgram) -> (r: (Vec<(u32, Mode, usize)>, Ghost<(Seq<(int, int)>, Map<(int, int), int>)>))
    ensures
        gathered(*sp, sp.functions@.len() as int, 0, r.0@, r.1@.0, r.1@.1),
{
    let mut sites: Vec<(u32, Mode, usize)> = Vec::new();
    let ghost mut origin: Seq<(int, int)> = Seq::empty();
    let ghost mut pos: Map<(int, int), int> = Map::empty();
    let mut f: usize = 0;
    while f < sp.functions.len()
        invariant
            f <= sp.functions@.len(),
            gathered(*sp, f as int, 0, sites@, origin, pos),
        decreases sp.functions@.len() - f,
    {
        let record = gather_function(sp, f, &mut sites, Ghost(origin), Ghost(pos));
        proof {
            origin = record@.0;
            pos = record@.1;
        }
        f = f + 1;
    }
    (sites, Ghost((origin, pos)))
}

fn site_key(t: (u32, Mode, usize)) -> (r: u64)
    ensures
        r == site_code(t),
{
    code_of(t.0, mode_bool(t.1))
}

/// The sites in the order of `order`, each picked by its key.
fn arrange(order: &Vec<u64>, sites: &Vec<(u32, Mode, usize)>) -> (r: Vec<(u32, Mode, usize)>)
    requires
        forall|x: u64| #[trigger] order@.contains(x) ==> exists|m: int| 0 <= m < sites@.len() && site_code(#[trigger] sites@[m]) == x,
    ensures
        r@.len() == order@.len(),
        forall|j: int| 0 <= j < r@.len() ==> site_code(#[trigger] r@[j]) == order@[j],
        forall|j: int| 0 <= j < r@.len() ==> sites@.contains(#[trigger] r@[j]),
{
    let mut out: Vec<(u32, Mode, usize)> = Vec::new();
    let mut i: usize = 0;
    while i < order.len()
        invariant
            i <= order@.len(),
            forall|x: u64| #[trigger] order@.contains(x) ==> exists|m: int| 0 <= m < sites@.len() && site_code(#[trigger] sites@[m]) == x,
            out@.len() == i,
            forall|j: int| 0 <= j < i ==> site_code(#[trigger] out@[j]) == order@[j],
            forall|j: int| 0 <= j < i ==> sites@.contains(#[trigger] out@[j]),
        decreases order@.len() - i,
    {
        let c = order[i];
        proof {
            assert(order@.contains(c));
        }
        let mut m: usize = 0;
        while m < sites.len() && site_key(sites[m]) != c
            invariant
                m <= sites@.len(),
                exists|w: int| 0 <= w < sites@.len() && site_code(#[trigger] sites@[w]) == c,
                forall|j: int| 0 <= j < m ==> site_code(#[trigger] sites@[j]) != c,
            decreases sites@.len() - m,
        {
            m = m + 1;
        }
        if m >= sites.len() {
            proof {
                let w = choose|w: int| 0 <= w < sites@.len() && site_code(#[trigger] sites@[w]) == c;
                assert(site_code(sites@[w]) != c);
            }
            return out;
        }
        out.push(sites[m]);
        proof {
            assert(sites@[m as int] == out@[i as int]);
        }
        i = i + 1;
    }
    out
}

/// Every block of the program, linked under its generated name, in
/// ascending order of address and then mode.
pub fn collect_linked_blocks(semantic: &SemanticProgram) -> (r: Vec<LinkedBlock>)
    requires
        block_keys_distinct(*semantic),
    ensures
        linked_ok(*semantic, linked_views(r@)),
        linked_views(r@) == canonical_links(*semantic),
{
    let sp = semantic;
    let (sites, record) = gather(sp);
    let ghost origin = record@.0;
    let ghost pos = record@.1;
    let ghost n = sp.functions@.len() as int;
    let mut codes: Vec<u64> = Vec::new();
    let mut j: usize = 0;
    while j < sites.len()
        invariant
            j <= sites@.len(),
            codes@.len() == j,
            forall|i: int| 0 <= i < j ==> codes@[i] == site_code(#[trigger] sites@[i]),
        decreases sites@.len() - j,
    {
        codes.push(site_key(sites[j]));
        j = j + 1;
    }
    let ghost all_codes = codes@;
    let uniq = sorted_distinct(codes);
    proof {
        assert forall|x: u64| #[trigger] uniq@.contains(x) implies exists|m: int| 0 <= m < sites@.len() && site_code(#[trigger] sites@[m]) == x by {
            assert(all_codes.contains(x));
            let m = choose|m: int| 0 <= m < all_codes.len() && all_codes[m] == x;
            assert(site_code(sites@[m]) == x);
        }
    }
    let ordered = arrange(&uniq, &sites);
    let mut out: Vec<LinkedBlock> = Vec::new();
    let mut i: usize = 0;
    while i < ordered.len()
        invariant
            i <= ordered@.len(),
            out@.len() == i,
            forall|j: int| 0 <= j < i ==> linked_view(#[trigger] out@[j]) == linked_of_site(ordered@[j]),
        decreases ordered@.len() - i,
    {
        let t = ordered[i];
        out.push(LinkedBlock { address: t.0, thumb: mode_bool(t.1), symbol: block_name(BlockId(t.2), t.1, t.0) });
        i = i + 1;
    }
    proof {
        let l = linked_views(out@);
        assert forall|a: int| 0 <= a < l.len() implies l[a] == linked_of_site(ordered@[a]) by {}
        assert forall|a: int, b: int| 0 <= a < b < l.len() implies dispatch_code(l[a].0, l[a].1) < dispatch_code(l[b].0, l[b].1) by {
            assert(site_code(ordered@[a]) == uniq@[a]);
            assert(site_code(ordered@[b]) == uniq@[b]);
        }
        assert forall|a: int| 0 <= a < l.len() implies links_some_block(*sp, #[trigger] l[a]) by {
            assert(sites@.contains(ordered@[a]));
            let m = choose|m: int| 0 <= m < sites@.len() && sites@[m] == ordered@[a];
            let (g, k) = origin[m];
            assert(done_before(*sp, n, 0, g, k));
            assert(l[a] == linked_of(sp.functions@[g].blocks@[k]));
        }
        assert forall|g: int, k: int| 0 <= g < sp.functions@.len() && 0 <= k < sp.functions@[g].blocks@.len() implies listed(
            l,
            linked_of(#[trigger] sp.functions@[g].blocks@[k]),
        ) by {
            assert(done_before(*sp, n, 0, g, k));
            let m = pos[(g, k)];
            let c = all_codes[m];
            assert(all_codes.contains(c));
            assert(uniq@.contains(c));
            let a = choose|a: int| 0 <= a < uniq@.len() && uniq@[a] == c;
            assert(sites@.contains(ordered@[a]));
            let m2 = choose|m2: int| 0 <= m2 < sites@.len() && sites@[m2] == ordered@[a];
            let (g2, k2) = origin[m2];
            assert(done_before(*sp, n, 0, g2, k2));
            let b1 = sp.functions@[g].blocks@[k];
            let b2 = sp.functions@[g2].blocks@[k2];
            assert(site_code(site_of(b1)) == site_code(site_of(b2)));
            if g != g2 || k != k2 {
                assert(b1.address != b2.address || b1.mode != b2.mode);
            }
            assert(l[a] == linked_of(b1));
        }
        assert(linked_ok(*sp, l));
        law_linked_listing_unique(*sp, l, canonical_links(*sp));
    }
    out
}



} // verus!
