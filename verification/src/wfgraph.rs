//! The ComfyUI workflow canvas: model references reduced to their file name,
//! widget values cut to fit a node, and the layout of an API-format graph
//! (which has no positions of its own) in columns by depth.
use vstd::prelude::*;
use crate::text::{chars_of, lower_seq, lower_vec, string_of, str_eq};

verus! {

/// A link of the graph: output slot `from_slot` of node `from` feeds input
/// slot `to_slot` of node `to`.
#[derive(Clone, Copy, Debug)]
pub struct WLink {
    pub from: i64,
    pub from_slot: usize,
    pub to: i64,
    pub to_slot: usize,
}

/// The part of `s` after its last `/` or `\` (all of `s` when it has none).
pub open spec fn after_last_sep(s: Seq<char>) -> Seq<char>
    decreases s.len(),
{
    if s.len() == 0 {
        s
    } else if s.last() == '/' || s.last() == '\\' {
        seq![]
    } else {
        after_last_sep(s.drop_last()).push(s.last())
    }
}

/// The part of `s` after its last `.`, if it has one.
pub open spec fn after_last_dot(s: Seq<char>) -> Option<Seq<char>>
    decreases s.len(),
{
    if s.len() == 0 {
        None
    } else if s.last() == '.' {
        Some(seq![])
    } else {
        match after_last_dot(s.drop_last()) {
            Some(e) => Some(e.push(s.last())),
            None => None,
        }
    }
}

/// The file name of a model reference without an author's folders: the part
/// after the last `/` or `\`.
pub fn base_name(s: &str) -> (r: String)
    ensures
        r@ == after_last_sep(s@),
{
    let v = chars_of(s);
    let mut base: Vec<char> = Vec::new();
    let mut i: usize = 0;
    while i < v.len()
        invariant
            i <= v@.len(),
            v@ == s@,
            base@ == after_last_sep(v@.take(i as int)),
        decreases v@.len() - i,
    {
        let c = v[i];
        proof {
            assert(v@.take(i + 1).drop_last() =~= v@.take(i as int));
            assert(v@.take(i + 1).last() == c);
        }
        if c == '/' || c == '\\' {
            base = Vec::new();
        } else {
            base.push(c);
        }
        i += 1;
    }
    assert(v@.take(v@.len() as int) =~= v@);
    string_of(&base)
}

/// The (lowercased) extensions of model files.
pub open spec fn model_ref_ext(e: Seq<char>) -> bool {
    e == "safetensors"@ || e == "gguf"@ || e == "ckpt"@ || e == "pt"@ || e == "pth"@ || e == "sft"@
        || e == "bin"@ || e == "vae"@
}

/// A widget value with an author's folder path stripped from a model-file
/// reference; anything else unchanged.
pub open spec fn norm_model_ref_spec(s: Seq<char>) -> Seq<char> {
    let base = after_last_sep(s);
    let is_model = match after_last_dot(base) {
        Some(e) => model_ref_ext(lower_seq(e)),
        None => false,
    };
    if is_model && base.len() < s.len() {
        base
    } else {
        s
    }
}

/// Strip an author's subfolder path from a model-file reference so the graph
/// shows the bare filename (matching the vault/manifest), e.g.
/// `GGUFFlux\Z\WIP\Fux.gguf` -> `Fux.gguf`. Non-model strings (prompts,
/// samplers) pass through untouched.
pub fn norm_model_ref(s: &str) -> (r: String)
    ensures
        r@ == norm_model_ref_spec(s@),
{
    let v = chars_of(s);
    let base = chars_of(base_name(s).as_str());
    // the extension of the base name, if it has a dot
    let mut ext: Vec<char> = Vec::new();
    let mut has_dot = false;
    let mut j: usize = 0;
    while j < base.len()
        invariant
            j <= base@.len(),
            has_dot ==> after_last_dot(base@.take(j as int)) == Some(ext@),
            !has_dot ==> after_last_dot(base@.take(j as int)) is None,
        decreases base@.len() - j,
    {
        let c = base[j];
        proof {
            assert(base@.take(j + 1).drop_last() =~= base@.take(j as int));
            assert(base@.take(j + 1).last() == c);
        }
        if c == '.' {
            ext = Vec::new();
            has_dot = true;
        } else if has_dot {
            ext.push(c);
        }
        j += 1;
    }
    assert(base@.take(base@.len() as int) =~= base@);
    let low = string_of(&lower_vec(&ext));
    let l = low.as_str();
    let is_model = has_dot && (str_eq(l, "safetensors") || str_eq(l, "gguf") || str_eq(l, "ckpt")
        || str_eq(l, "pt") || str_eq(l, "pth") || str_eq(l, "sft") || str_eq(l, "bin") || str_eq(
        l,
        "vae",
    ));
    if is_model && base.len() < v.len() {
        string_of(&base)
    } else {
        s.to_owned()
    }
}

/// A widget value on one line (newlines become spaces).
pub open spec fn one_line(s: Seq<char>) -> Seq<char> {
    s.map_values(|c: char| if c == '\n' { ' ' } else { c })
}

/// A widget value on one line, cut to `max` characters: a longer value keeps
/// its first `max - 1` characters and ends in `…`.
pub open spec fn truncate_spec(s: Seq<char>, max: nat) -> Seq<char> {
    let t = one_line(s);
    if t.len() <= max {
        t
    } else {
        t.take(if max >= 1 { max - 1 } else { 0 }).push('…')
    }
}

/// A widget value on one line, cut to fit a node (see [`truncate_spec`]).
pub fn truncate(s: &str, max: usize) -> (r: String)
    ensures
        r@ == truncate_spec(s@, max as nat),
{
    let v = chars_of(s);
    let mut t: Vec<char> = Vec::new();
    let mut i: usize = 0;
    while i < v.len()
        invariant
            i <= v@.len(),
            v@ == s@,
            t@ == one_line(v@.take(i as int)),
        decreases v@.len() - i,
    {
        let c = v[i];
        t.push(if c == '\n' { ' ' } else { c });
        assert(one_line(v@.take(i + 1)) =~= one_line(v@.take(i as int)).push(if c == '\n' { ' ' } else { c }));
        i += 1;
    }
    assert(v@.take(v@.len() as int) =~= v@);
    if t.len() <= max {
        string_of(&t)
    } else {
        let keep = if max >= 1 { max - 1 } else { 0 };
        let mut out: Vec<char> = Vec::new();
        let mut k: usize = 0;
        while k < keep
            invariant
                k <= keep,
                keep < t@.len(),
                out@ == t@.take(k as int),
            decreases keep - k,
        {
            out.push(t[k]);
            assert(t@.take(k + 1) =~= t@.take(k as int).push(t@[k as int]));
            k += 1;
        }
        out.push('…');
        string_of(&out)
    }
}

// ---------------------------------------------------------------------------
// Layout of an API-format graph
// ---------------------------------------------------------------------------

/// Every link of a graph of `n` nodes (numbered `0..n`) joins two of them.
pub open spec fn links_in_range(n: nat, links: Seq<WLink>) -> bool {
    forall|k: int| 0 <= k < links.len() ==> 0 <= (#[trigger] links[k]).from < n && 0 <= links[k].to < n
}

/// The nodes can be numbered (each below `n`) so that every link goes from a
/// lower number to a higher one: the graph has no cycle.
pub open spec fn good_rank(n: nat, links: Seq<WLink>, rank: Seq<int>) -> bool {
    &&& rank.len() == n
    &&& forall|i: int| 0 <= i < n ==> 0 <= #[trigger] rank[i] < n
    &&& forall|k: int| 0 <= k < links.len() ==> rank[(#[trigger] links[k]).from as int] < rank[links[k].to as int]
}

pub open spec fn acyclic(n: nat, links: Seq<WLink>) -> bool {
    exists|rank: Seq<int>| good_rank(n, links, rank)
}

/// One more than the largest column among the parents of `v` (the sources of
/// the links into it, in `links`), 0 when it has none.
pub open spec fn parent_max(links: Seq<WLink>, v: int, cols: Seq<int>) -> int
    decreases links.len(),
{
    if links.len() == 0 {
        0
    } else {
        let m = parent_max(links.drop_last(), v, cols);
        let l = links.last();
        if l.to == v && cols[l.from as int] + 1 > m {
            cols[l.from as int] + 1
        } else {
            m
        }
    }
}

proof fn lemma_parent_max_frame(links: Seq<WLink>, v: int, c1: Seq<int>, c2: Seq<int>)
    requires
        forall|k: int| 0 <= k < links.len() && (#[trigger] links[k]).to == v ==> c1[links[k].from as int]
            == c2[links[k].from as int],
    ensures
        parent_max(links, v, c1) == parent_max(links, v, c2),
    decreases links.len(),
{
    if links.len() > 0 {
        let d = links.drop_last();
        assert forall|k: int| 0 <= k < d.len() && (#[trigger] d[k]).to == v implies c1[d[k].from as int]
            == c2[d[k].from as int] by {
            assert(d[k] == links[k]);
        }
        lemma_parent_max_frame(d, v, c1, c2);
        assert(links.last() == links[links.len() - 1]);
    }
}

/// A memo entry: the column found and whether the node is finished (a node
/// still being worked on reads as column 0, which stops a cycle).
pub open spec fn memo_col(m: Seq<Option<(usize, bool)>>, x: int) -> int {
    match m[x] {
        Some((d, _)) => d as int,
        None => 0,
    }
}

pub open spec fn memo_cols(m: Seq<Option<(usize, bool)>>) -> Seq<int> {
    Seq::new(m.len(), |x: int| memo_col(m, x))
}

pub open spec fn finished(m: Seq<Option<(usize, bool)>>, x: int) -> bool {
    m[x] matches Some((_, true))
}

pub open spec fn in_progress(m: Seq<Option<(usize, bool)>>, x: int) -> bool {
    m[x] == Some::<(usize, bool)>((0, false))
}

pub open spec fn none_count(m: Seq<Option<(usize, bool)>>) -> nat
    decreases m.len(),
{
    if m.len() == 0 {
        0
    } else {
        none_count(m.drop_last()) + if m.last() is None { 1nat } else { 0nat }
    }
}

proof fn lemma_none_count_mono(a: Seq<Option<(usize, bool)>>, b: Seq<Option<(usize, bool)>>)
    requires
        a.len() == b.len(),
        forall|i: int| 0 <= i < a.len() && (#[trigger] a[i]) is Some ==> b[i] is Some,
    ensures
        none_count(b) <= none_count(a),
    decreases a.len(),
{
    if a.len() > 0 {
        let (da, db) = (a.drop_last(), b.drop_last());
        assert forall|i: int| 0 <= i < da.len() && (#[trigger] da[i]) is Some implies db[i] is Some by {
            assert(da[i] == a[i] && db[i] == b[i]);
        }
        lemma_none_count_mono(da, db);
        assert(a.last() == a[a.len() - 1] && b.last() == b[b.len() - 1]);
    }
}

proof fn lemma_none_count_mark(a: Seq<Option<(usize, bool)>>, i: int, x: (usize, bool))
    requires
        0 <= i < a.len(),
        a[i] is None,
    ensures
        none_count(a.update(i, Some(x))) < none_count(a),
    decreases a.len(),
{
    let b = a.update(i, Some(x));
    if i == a.len() - 1 {
        assert(b.drop_last() =~= a.drop_last());
    } else {
        assert(b.drop_last() =~= a.drop_last().update(i, Some(x)));
        lemma_none_count_mark(a.drop_last(), i, x);
        assert(b.last() == a.last());
    }
}

/// Under a numbering without cycles: a finished node's parents are finished,
/// its column is one more than their largest (0 with none) and at most its
/// number.
pub open spec fn finished_ok(m: Seq<Option<(usize, bool)>>, links: Seq<WLink>, rank: Seq<int>, x: int) -> bool {
    &&& forall|k: int| 0 <= k < links.len() && (#[trigger] links[k]).to == x ==> finished(m, links[k].from as int)
    &&& memo_col(m, x) == parent_max(links, x, memo_cols(m))
    &&& memo_col(m, x) <= rank[x]
}

/// An unfinished entry holds column 0.
pub open spec fn entry_shape(o: Option<(usize, bool)>) -> bool {
    match o {
        Some((d, false)) => d == 0,
        _ => true,
    }
}

pub open spec fn memo_shape(m: Seq<Option<(usize, bool)>>) -> bool {
    forall|x: int| 0 <= x < m.len() ==> entry_shape(#[trigger] m[x])
}

pub open spec fn memo_good(m: Seq<Option<(usize, bool)>>, links: Seq<WLink>, rank: Seq<int>, acyc: bool) -> bool {
    &&& memo_shape(m)
    &&& acyc ==> forall|x: int| 0 <= x < m.len() && finished(m, x) ==> #[trigger] finished_ok(m, links, rank, x)
}

proof fn lemma_finished_ok_frame(
    m1: Seq<Option<(usize, bool)>>,
    m2: Seq<Option<(usize, bool)>>,
    links: Seq<WLink>,
    rank: Seq<int>,
    x: int,
)
    requires
        m1.len() == m2.len(),
        0 <= x < m1.len(),
        links_in_range(m1.len(), links),
        finished_ok(m1, links, rank, x),
        forall|i: int| 0 <= i < m1.len() && (#[trigger] m1[i]) is Some ==> m2[i] == m1[i],
        finished(m1, x),
    ensures
        finished_ok(m2, links, rank, x),
{
    assert forall|k: int| 0 <= k < links.len() && (#[trigger] links[k]).to == x implies memo_cols(m1)[links[k].from as int]
        == memo_cols(m2)[links[k].from as int] by {
        assert(finished(m1, links[k].from as int));
    }
    lemma_parent_max_frame(links, x, memo_cols(m1), memo_cols(m2));
}

/// The column of node `v` by a depth-first search over its parents in link
/// order, remembering each node's column in `memo`.
fn depth(
    v: usize,
    links: &Vec<WLink>,
    memo: &mut Vec<Option<(usize, bool)>>,
    Ghost(rank): Ghost<Seq<int>>,
    Ghost(acyc): Ghost<bool>,
) -> (d: usize)
    requires
        v < old(memo)@.len(),
        links_in_range(old(memo)@.len(), links@),
        acyc ==> good_rank(old(memo)@.len(), links@, rank),
        memo_good(old(memo)@, links@, rank, acyc),
        acyc ==> forall|x: int| 0 <= x < old(memo)@.len() && in_progress(old(memo)@, x) ==> rank[x] > rank[v as int],
    ensures
        final(memo)@.len() == old(memo)@.len(),
        forall|x: int| 0 <= x < old(memo)@.len() && (#[trigger] old(memo)@[x]) is Some ==> final(memo)@[x] == old(memo)@[x],
        final(memo)@[v as int] is Some,
        d == memo_col(final(memo)@, v as int),
        memo_good(final(memo)@, links@, rank, acyc),
        forall|x: int| 0 <= x < old(memo)@.len() && in_progress(final(memo)@, x) ==> #[trigger] in_progress(old(memo)@, x),
        acyc && !in_progress(old(memo)@, v as int) ==> finished(final(memo)@, v as int),
    decreases none_count(old(memo)@),
{
    match memo[v] {
        Some((d, _)) => {
            return d;
        },
        None => {},
    }
    let ghost m0 = memo@;
    let nn = memo.len();
    memo.set(v, Some((0, false)));
    proof {
        lemma_none_count_mark(m0, v as int, (0, false));
        if acyc {
            assert forall|x: int| 0 <= x < memo@.len() && finished(memo@, x) implies #[trigger] finished_ok(memo@, links@, rank, x) by {
                assert(finished(m0, x));
                assert(finished_ok(m0, links@, rank, x));
                lemma_finished_ok_frame(m0, memo@, links@, rank, x);
            }
        }
    }
    let mut d: usize = 0;
    let mut k: usize = 0;
    while k < links.len()
        invariant
            k <= links@.len(),
            memo@.len() == m0.len(),
            m0[v as int] is None,
            in_progress(memo@, v as int),
            links_in_range(m0.len(), links@),
            acyc ==> good_rank(m0.len(), links@, rank),
            forall|x: int| 0 <= x < m0.len() && (#[trigger] m0[x]) is Some ==> memo@[x] == m0[x],
            forall|x: int| 0 <= x < m0.len() && in_progress(memo@, x) ==> #[trigger] in_progress(m0, x) || x == v,
            m0 == old(memo)@,
            nn as int == m0.len(),
            none_count(memo@) < none_count(m0),
            memo_good(memo@, links@, rank, acyc),
            acyc ==> forall|x: int| 0 <= x < m0.len() && in_progress(m0, x) ==> rank[x] > rank[v as int],
            acyc ==> forall|j: int| 0 <= j < k && (#[trigger] links@[j]).to == v ==> finished(memo@, links@[j].from as int),
            acyc ==> d == parent_max(links@.take(k as int), v as int, memo_cols(memo@)),
            acyc ==> d <= rank[v as int],
        decreases links@.len() - k,
    {
        let l = links[k];
        assert(links@.take(k + 1).drop_last() =~= links@.take(k as int));
        assert(links@.take(k + 1).last() == l);
        assert(l == links@[k as int]);
        assert(0 <= l.from < m0.len() && 0 <= l.to < m0.len());
        if l.to as usize == v {
            let p = l.from as usize;
            assert(p as int == l.from as int && l.to as int == v as int);
            let ghost before = memo@;
            proof {
                if acyc {
                    assert(rank[l.from as int] < rank[l.to as int]);
                    assert forall|x: int| 0 <= x < before.len() && in_progress(before, x) implies rank[x] > rank[p as int] by {
                        if x != v as int {
                            assert(in_progress(m0, x));
                        }
                    }
                }
            }
            let dp = depth(p, links, memo, Ghost(rank), Ghost(acyc));
            proof {
                lemma_none_count_mono(before, memo@);
                if acyc {
                    assert(!in_progress(before, p as int));
                    assert(finished(memo@, p as int));
                    assert(finished_ok(memo@, links@, rank, p as int));
                    // the parents found so far keep their columns
                    assert forall|j: int| 0 <= j < k && (#[trigger] links@[j]).to == v implies memo_cols(before)[links@[j].from as int]
                        == memo_cols(memo@)[links@[j].from as int] by {
                        assert(finished(before, links@[j].from as int));
                    }
                    let t = links@.take(k as int);
                    assert forall|j: int| 0 <= j < t.len() && (#[trigger] t[j]).to == v implies memo_cols(before)[t[j].from as int]
                        == memo_cols(memo@)[t[j].from as int] by {
                        assert(t[j] == links@[j]);
                    }
                    lemma_parent_max_frame(t, v as int, memo_cols(before), memo_cols(memo@));
                }
            }
            let c = dp.saturating_add(1);
            if c > d {
                d = c;
            }
        }
        proof {
            if acyc {
                assert forall|j: int| 0 <= j < k + 1 && (#[trigger] links@[j]).to == v implies finished(memo@, links@[j].from as int) by {
                    if j < k {
                        assert(finished(memo@, links@[j].from as int));
                    }
                }
            }
        }
        k += 1;
    }
    assert(links@.take(links@.len() as int) =~= links@);
    let ghost m1 = memo@;
    memo.set(v, Some((d, true)));
    proof {
        if acyc {
            // v is no parent of itself, nor of any node finished before it
            assert forall|j: int| 0 <= j < links@.len() && (#[trigger] links@[j]).to == v as int implies memo_cols(m1)[links@[j].from as int]
                == memo_cols(memo@)[links@[j].from as int] by {
                assert(rank[links@[j].from as int] < rank[links@[j].to as int]);
            }
            lemma_parent_max_frame(links@, v as int, memo_cols(m1), memo_cols(memo@));
            assert(finished_ok(memo@, links@, rank, v as int));
            assert forall|x: int| 0 <= x < memo@.len() && finished(memo@, x) implies #[trigger] finished_ok(memo@, links@, rank, x) by {
                if x != v as int {
                    assert(finished(m1, x));
                    assert(finished_ok(m1, links@, rank, x));
                    assert forall|i: int| 0 <= i < m1.len() && (#[trigger] m1[i]) is Some && i != v as int implies memo@[i] == m1[i] by {}
                    assert forall|kk: int| 0 <= kk < links@.len() && (#[trigger] links@[kk]).to == x implies memo_cols(m1)[links@[kk].from as int]
                        == memo_cols(memo@)[links@[kk].from as int] by {
                        assert(finished(m1, links@[kk].from as int));
                    }
                    lemma_parent_max_frame(links@, x, memo_cols(m1), memo_cols(memo@));
                }
            }
        }
    }
    d
}

/// How many nodes before `i` share its column.
pub open spec fn same_col_before(r: Seq<(usize, usize)>, i: int, upto: int) -> nat
    decreases upto,
{
    if upto <= 0 {
        0
    } else {
        same_col_before(r, i, upto - 1) + if r[upto - 1].0 == r[i].0 { 1nat } else { 0nat }
    }
}

pub open spec fn layout_cols(r: Seq<(usize, usize)>) -> Seq<int> {
    Seq::new(r.len(), |i: int| r[i].0 as int)
}

/// The canvas layout of an API-format graph of `n` nodes: each node's column
/// (its depth: one more than the largest column of its parents, 0 with
/// none, so on a graph without cycles every link goes left to right) and
/// its row (how many earlier nodes share its column). The depths come from
/// a depth-first search that remembers each node; on a graph with a cycle a
/// node met again while its own search is under way counts as column 0.
pub fn api_layout(n: usize, links: &Vec<WLink>) -> (r: Vec<(usize, usize)>)
    requires
        links_in_range(n as nat, links@),
    ensures
        r@.len() == n,
        acyclic(n as nat, links@) ==> forall|v: int| 0 <= v < n ==> (#[trigger] r@[v]).0 == parent_max(links@, v, layout_cols(r@)),
        forall|i: int| 0 <= i < n ==> (#[trigger] r@[i]).1 == same_col_before(r@, i, i),
{
    let ghost acyc = acyclic(n as nat, links@);
    let ghost rank: Seq<int> = if acyc { choose|rank: Seq<int>| good_rank(n as nat, links@, rank) } else { seq![] };
    let mut memo: Vec<Option<(usize, bool)>> = Vec::new();
    let mut i: usize = 0;
    while i < n
        invariant
            i <= n,
            memo@.len() == i,
            forall|x: int| 0 <= x < i ==> (#[trigger] memo@[x]) is None,
        decreases n - i,
    {
        memo.push(None);
        i += 1;
    }
    let mut cols: Vec<usize> = Vec::new();
    let mut v: usize = 0;
    while v < n
        invariant
            v <= n,
            memo@.len() == n,
            cols@.len() == v,
            links_in_range(n as nat, links@),
            acyc ==> good_rank(n as nat, links@, rank),
            memo_good(memo@, links@, rank, acyc),
            forall|x: int| 0 <= x < n ==> !(#[trigger] in_progress(memo@, x)),
            forall|x: int| 0 <= x < v ==> (#[trigger] memo@[x]) is Some && cols@[x] as int == memo_col(memo@, x),
            acyc ==> forall|x: int| 0 <= x < v ==> #[trigger] finished(memo@, x),
        decreases n - v,
    {
        let ghost before = memo@;
        let d = depth(v, links, &mut memo, Ghost(rank), Ghost(acyc));
        assert forall|x: int| 0 <= x < v implies (#[trigger] memo@[x]) is Some && cols@[x] as int == memo_col(memo@, x) by {
            assert(before[x] is Some);
        }
        assert forall|x: int| 0 <= x < n implies !(#[trigger] in_progress(memo@, x)) by {
            if in_progress(memo@, x) {
                assert(in_progress(before, x));
            }
        }
        proof {
            if acyc {
                assert forall|x: int| 0 <= x < v + 1 implies #[trigger] finished(memo@, x) by {
                    if x < v {
                        assert(before[x] is Some);
                        assert(finished(before, x));
                    }
                }
            }
        }
        cols.push(d);
        v += 1;
    }
    // rows: how many earlier nodes share the column
    let mut r: Vec<(usize, usize)> = Vec::new();
    let mut i: usize = 0;
    while i < n
        invariant
            i <= n,
            cols@.len() == n,
            r@.len() == i,
            forall|x: int| 0 <= x < i ==> (#[trigger] r@[x]).0 == cols@[x],
            forall|x: int| 0 <= x < i ==> (#[trigger] r@[x]).1 == same_col_before(cols@.map_values(|c: usize| (c, 0usize)), x, x),
        decreases n - i,
    {
        let mut cnt: usize = 0;
        let mut j: usize = 0;
        while j < i
            invariant
                j <= i < n,
                cols@.len() == n,
                cnt == same_col_before(cols@.map_values(|c: usize| (c, 0usize)), i as int, j as int),
                cnt <= j,
            decreases i - j,
        {
            if cols[j] == cols[i] {
                cnt += 1;
            }
            j += 1;
        }
        r.push((cols[i], cnt));
        i += 1;
    }
    proof {
        let c0 = cols@.map_values(|c: usize| (c, 0usize));
        assert forall|x: int, u: int| 0 <= x < n && 0 <= u <= x implies same_col_before(c0, x, u) == same_col_before(r@, x, u) by {
            lemma_same_col_frame(c0, r@, x, u);
        }
        assert(layout_cols(r@) =~= memo_cols(memo@));
        if acyc {
            assert forall|v: int| 0 <= v < n implies (#[trigger] r@[v]).0 == parent_max(links@, v, layout_cols(r@)) by {
                assert(finished(memo@, v));
                assert(finished_ok(memo@, links@, rank, v));
            }
        }
    }
    r
}

proof fn lemma_same_col_frame(a: Seq<(usize, usize)>, b: Seq<(usize, usize)>, x: int, u: int)
    requires
        a.len() == b.len(),
        0 <= u <= x < a.len(),
        forall|i: int| 0 <= i < a.len() ==> (#[trigger] a[i]).0 == b[i].0,
    ensures
        same_col_before(a, x, u) == same_col_before(b, x, u),
    decreases u,
{
    if u > 0 {
        lemma_same_col_frame(a, b, x, u - 1);
        assert(a[u - 1].0 == b[u - 1].0);
        assert(a[x].0 == b[x].0);
    }
}

/// How many output slots node `v` shows: one more than the highest slot any
/// link leaves it from, 1 when no link leaves it.
pub open spec fn out_slots(links: Seq<WLink>, v: int) -> Option<int>
    decreases links.len(),
{
    if links.len() == 0 {
        None
    } else {
        let m = out_slots(links.drop_last(), v);
        let l = links.last();
        if l.from == v {
            match m {
                Some(c) => Some(if l.from_slot + 1 > c { l.from_slot + 1 } else { c }),
                None => Some(l.from_slot + 1),
            }
        } else {
            m
        }
    }
}

/// The number of output slots of each of `n` nodes (see [`out_slots`]).
pub fn output_counts(n: usize, links: &Vec<WLink>) -> (r: Vec<usize>)
    requires
        forall|k: int| 0 <= k < links@.len() ==> (#[trigger] links@[k]).from_slot < usize::MAX,
    ensures
        r@.len() == n,
        forall|v: int| 0 <= v < n ==> (#[trigger] r@[v]) as int == match out_slots(links@, v) {
            Some(c) => c,
            None => 1,
        },
{
    let mut r: Vec<usize> = Vec::new();
    let mut v: usize = 0;
    while v < n
        invariant
            v <= n,
            r@.len() == v,
            forall|k: int| 0 <= k < links@.len() ==> (#[trigger] links@[k]).from_slot < usize::MAX,
            forall|x: int| 0 <= x < v ==> (#[trigger] r@[x]) as int == match out_slots(links@, x) {
                Some(c) => c,
                None => 1,
            },
        decreases n - v,
    {
        let mut best: Option<usize> = None;
        let mut k: usize = 0;
        while k < links.len()
            invariant
                k <= links@.len(),
                v < n,
                forall|kk: int| 0 <= kk < links@.len() ==> (#[trigger] links@[kk]).from_slot < usize::MAX,
                match best {
                    Some(b) => out_slots(links@.take(k as int), v as int) == Some(b as int),
                    None => out_slots(links@.take(k as int), v as int) is None,
                },
            decreases links@.len() - k,
        {
            let l = links[k];
            assert(links@.take(k + 1).drop_last() =~= links@.take(k as int));
            assert(links@.take(k + 1).last() == l);
            if l.from >= 0 && l.from as u64 == v as u64 {
                let c = l.from_slot + 1;
                best = match best {
                    Some(b) => Some(if c > b { c } else { b }),
                    None => Some(c),
                };
            }
            k += 1;
        }
        assert(links@.take(links@.len() as int) =~= links@);
        r.push(match best {
            Some(b) => b,
            None => 1,
        });
        v += 1;
    }
    r
}

} // verus!
