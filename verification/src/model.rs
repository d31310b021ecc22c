//! The specification model: every generation stage is mirrored by a
//! spec function over sequences of character sequences (the views of the
//! phoneme strings), so that each executable stage can state exactly
//! which ordered sequence of strings it produces.

use vstd::prelude::*;

use crate::settings::ConsonantCluster;
use crate::settings::ConsonantClusterLength;
use crate::settings::Diphthongs;
use crate::settings::Glides;
use crate::settings::SyllableStructure;

verus! {

// ---------------------------------------------------------------------
// From strings to their views
// ---------------------------------------------------------------------

/// The views of a sequence of strings: each string as its character
/// sequence. Every contract of the library speaks of string lists
/// through this function.
pub open spec fn views(ss: Seq<String>) -> Seq<Seq<char>> {
    Seq::new(ss.len(), |i: int| ss[i]@)
}

pub broadcast proof fn lemma_views_push(ss: Seq<String>, s: String)
    ensures
        #[trigger] views(ss.push(s)) == views(ss).push(s@),
{
    assert(views(ss.push(s)) =~= views(ss).push(s@));
}

pub broadcast proof fn lemma_views_take(ss: Seq<String>, i: int)
    requires
        0 <= i <= ss.len(),
    ensures
        #[trigger] views(ss.take(i)) == views(ss).take(i),
{
    assert(views(ss.take(i)) =~= views(ss).take(i));
}

pub broadcast proof fn lemma_views_concat(a: Seq<String>, b: Seq<String>)
    ensures
        #[trigger] views(a + b) == views(a) + views(b),
{
    assert(views(a + b) =~= views(a) + views(b));
}

/// Taking one more element appends exactly that element.
pub proof fn lemma_take_succ<A>(s: Seq<A>, i: int)
    requires
        0 <= i < s.len(),
    ensures
        s.take(i + 1) == s.take(i).push(s[i]),
{
    assert(s.take(i + 1) =~= s.take(i).push(s[i]));
}

// ---------------------------------------------------------------------
// Exact-match exclusion filtering
// ---------------------------------------------------------------------

/// `xs` with every string that occurs in `excl` removed; the order of
/// the kept strings is the order of `xs`.
pub open spec fn filter_not_in(xs: Seq<Seq<char>>, excl: Seq<Seq<char>>) -> Seq<Seq<char>>
    decreases xs.len(),
{
    if xs.len() == 0 {
        Seq::empty()
    } else {
        let rest = filter_not_in(xs.drop_last(), excl);
        if excl.contains(xs.last()) {
            rest
        } else {
            rest.push(xs.last())
        }
    }
}

/// `xs` with every string removed that occurs in `a` or in `b`.
pub open spec fn filter_not_in2(
    xs: Seq<Seq<char>>,
    a: Seq<Seq<char>>,
    b: Seq<Seq<char>>,
) -> Seq<Seq<char>>
    decreases xs.len(),
{
    if xs.len() == 0 {
        Seq::empty()
    } else {
        let rest = filter_not_in2(xs.drop_last(), a, b);
        if a.contains(xs.last()) || b.contains(xs.last()) {
            rest
        } else {
            rest.push(xs.last())
        }
    }
}

/// Filtering a concatenation filters each part.
pub proof fn lemma_filter_concat(xs: Seq<Seq<char>>, ys: Seq<Seq<char>>, excl: Seq<Seq<char>>)
    ensures
        filter_not_in(xs + ys, excl) == filter_not_in(xs, excl) + filter_not_in(ys, excl),
    decreases ys.len(),
{
    if ys.len() == 0 {
        assert(xs + ys =~= xs);
        assert(filter_not_in(xs, excl) + filter_not_in(ys, excl) =~= filter_not_in(xs, excl));
    } else {
        lemma_filter_concat(xs, ys.drop_last(), excl);
        assert((xs + ys).drop_last() =~= xs + ys.drop_last());
        assert((xs + ys).last() == ys.last());
        if !excl.contains(ys.last()) {
            assert(filter_not_in(xs, excl) + filter_not_in(ys, excl) =~= (filter_not_in(xs, excl)
                + filter_not_in(ys.drop_last(), excl)).push(ys.last()));
        }
    }
}

/// Two filters in a row remove exactly the members of either list.
pub proof fn lemma_filter_filter(xs: Seq<Seq<char>>, a: Seq<Seq<char>>, b: Seq<Seq<char>>)
    ensures
        filter_not_in(filter_not_in(xs, a), b) == filter_not_in2(xs, a, b),
    decreases xs.len(),
{
    if xs.len() == 0 {
    } else {
        lemma_filter_filter(xs.drop_last(), a, b);
        let x = xs.last();
        if !a.contains(x) {
            let s = filter_not_in(xs.drop_last(), a);
            assert(filter_not_in(xs, a) == s.push(x));
            assert(s.push(x).drop_last() =~= s);
            assert(s.push(x).last() == x);
        }
    }
}

/// A positional set is the consonants minus the exclusions, followed by
/// the clusters that duplicate no consonant, minus the exclusions.
pub proof fn lemma_positional_set_split(
    consonants: Seq<Seq<char>>,
    clusters: Seq<Seq<char>>,
    excl: Seq<Seq<char>>,
)
    ensures
        positional_set(consonants, clusters, excl) == filter_not_in(consonants, excl)
            + filter_not_in2(clusters, consonants, excl),
{
    lemma_filter_concat(consonants, filter_not_in(clusters, consonants), excl);
    lemma_filter_filter(clusters, consonants, excl);
}

// ---------------------------------------------------------------------
// Diphthong derivation
// ---------------------------------------------------------------------

/// Whether the pair `v1 + v2` survives the diphthong mode's rule.
/// `OnlyGiven` derives nothing, so nothing survives.
pub open spec fn diphthong_keep(
    mode: Diphthongs,
    v1: Seq<char>,
    v2: Seq<char>,
    disabled: Seq<Seq<char>>,
) -> bool {
    match mode {
        Diphthongs::All => true,
        Diphthongs::NoLong => v1 != v2,
        Diphthongs::OnlyGiven => false,
        Diphthongs::DisableGiven => !disabled.contains(v1 + v2),
    }
}

/// One row of the diphthong cross product: `v1` paired with each element
/// of `inner` in order, keeping what the mode's rule keeps.
pub open spec fn diphthong_row(
    mode: Diphthongs,
    v1: Seq<char>,
    inner: Seq<Seq<char>>,
    disabled: Seq<Seq<char>>,
) -> Seq<Seq<char>>
    decreases inner.len(),
{
    if inner.len() == 0 {
        Seq::empty()
    } else {
        let rest = diphthong_row(mode, v1, inner.drop_last(), disabled);
        if diphthong_keep(mode, v1, inner.last(), disabled) {
            rest.push(v1 + inner.last())
        } else {
            rest
        }
    }
}

/// The full derived diphthong sequence: one row per element of `outer`,
/// rows in `outer` order.
pub open spec fn diphthong_table(
    mode: Diphthongs,
    outer: Seq<Seq<char>>,
    inner: Seq<Seq<char>>,
    disabled: Seq<Seq<char>>,
) -> Seq<Seq<char>>
    decreases outer.len(),
{
    if outer.len() == 0 {
        Seq::empty()
    } else {
        diphthong_table(mode, outer.drop_last(), inner, disabled) + diphthong_row(
            mode,
            outer.last(),
            inner,
            disabled,
        )
    }
}

// ---------------------------------------------------------------------
// Glide derivation
// ---------------------------------------------------------------------

/// The prefixed variants of one nucleus value, in emission order.
pub open spec fn glide_variants(mode: Glides, v: Seq<char>) -> Seq<Seq<char>> {
    match mode {
        Glides::All => seq!["y"@ + v, "w"@ + v],
        Glides::AllOnlyU => seq!["w"@ + v],
        Glides::AllOnlyY => seq!["y"@ + v],
    }
}

/// The glide variants of every element of `vs`, in `vs` order.
pub open spec fn glide_seq(mode: Glides, vs: Seq<Seq<char>>) -> Seq<Seq<char>>
    decreases vs.len(),
{
    if vs.len() == 0 {
        Seq::empty()
    } else {
        glide_seq(mode, vs.drop_last()) + glide_variants(mode, vs.last())
    }
}

// ---------------------------------------------------------------------
// Consonant cluster derivation
// ---------------------------------------------------------------------

/// Whether a candidate may be extended by the symbol `next` when the
/// last symbol appended so far is `prev`. `NoDouble` refuses an adjacent
/// repeat, and with it every longer candidate built on the repeat.
pub open spec fn cluster_extend(mode: ConsonantCluster, prev: Seq<char>, next: Seq<char>) -> bool {
    match mode {
        ConsonantCluster::All => true,
        ConsonantCluster::NoDouble => prev != next,
        ConsonantCluster::OnlyGiven => false,
        ConsonantCluster::DisableGiven => true,
    }
}

/// Whether a built candidate is emitted. `DisableGiven` drops the exact
/// members of the exclusion list but still extends them.
pub open spec fn cluster_emit(
    mode: ConsonantCluster,
    word: Seq<char>,
    disabled: Seq<Seq<char>>,
) -> bool {
    match mode {
        ConsonantCluster::All => true,
        ConsonantCluster::NoDouble => true,
        ConsonantCluster::OnlyGiven => false,
        ConsonantCluster::DisableGiven => !disabled.contains(word),
    }
}

/// The clusters grown from the candidate `w` (whose last symbol is `p`)
/// by appending each symbol of `done` in order; each grown candidate is
/// emitted before the candidates grown from it, and `depth` more symbols
/// may be appended at most. `all` is the full consonant alphabet used
/// below the first level.
pub open spec fn cluster_children(
    mode: ConsonantCluster,
    done: Seq<Seq<char>>,
    all: Seq<Seq<char>>,
    w: Seq<char>,
    p: Seq<char>,
    disabled: Seq<Seq<char>>,
    depth: nat,
) -> Seq<Seq<char>>
    decreases depth, done.len(),
{
    if done.len() == 0 || depth == 0 {
        Seq::empty()
    } else {
        let c = done.last();
        let rest = cluster_children(mode, done.drop_last(), all, w, p, disabled, depth);
        let word = w + c;
        let here = if cluster_extend(mode, p, c) {
            (if cluster_emit(mode, word, disabled) {
                seq![word]
            } else {
                Seq::empty()
            }) + cluster_children(mode, all, all, word, c, disabled, (depth - 1) as nat)
        } else {
            Seq::empty()
        };
        rest + here
    }
}

/// The full derived cluster sequence: the candidates grown from each
/// consonant of `done` in order. The single consonants themselves are
/// not part of it; they join the pool separately, in every mode.
pub open spec fn cluster_table(
    mode: ConsonantCluster,
    done: Seq<Seq<char>>,
    all: Seq<Seq<char>>,
    disabled: Seq<Seq<char>>,
    depth: nat,
) -> Seq<Seq<char>>
    decreases done.len(),
{
    if done.len() == 0 {
        Seq::empty()
    } else {
        cluster_table(mode, done.drop_last(), all, disabled, depth) + cluster_children(
            mode,
            all,
            all,
            done.last(),
            done.last(),
            disabled,
            depth,
        )
    }
}

/// How many symbols a derived cluster may hold beyond its first one.
pub open spec fn depth_of(len: ConsonantClusterLength) -> nat {
    match len {
        ConsonantClusterLength::C => 0,
        ConsonantClusterLength::CC => 1,
        ConsonantClusterLength::CCC => 2,
        ConsonantClusterLength::CCCC => 3,
        ConsonantClusterLength::Unset => 0,
    }
}

// ---------------------------------------------------------------------
// The effective pool and the positional filter
// ---------------------------------------------------------------------

/// The effective cluster pool: the bare consonants, always, followed by
/// the derived or supplied clusters that do not duplicate one of them.
pub open spec fn effective_pool(
    consonants: Seq<Seq<char>>,
    clusters: Seq<Seq<char>>,
) -> Seq<Seq<char>> {
    consonants + filter_not_in(clusters, consonants)
}

/// One position's legal cluster set: the effective pool minus that
/// position's exclusion list. The two positions are filtered
/// independently of each other.
pub open spec fn positional_set(
    consonants: Seq<Seq<char>>,
    clusters: Seq<Seq<char>>,
    excl: Seq<Seq<char>>,
) -> Seq<Seq<char>> {
    filter_not_in(effective_pool(consonants, clusters), excl)
}

// ---------------------------------------------------------------------
// Assembly
// ---------------------------------------------------------------------

/// Whether the structure emits onset-bearing shapes.
pub open spec fn has_onset(st: SyllableStructure) -> bool {
    st == SyllableStructure::All || st == SyllableStructure::CV || st == SyllableStructure::CVC
}

/// Whether the structure emits coda-bearing shapes.
pub open spec fn has_coda(st: SyllableStructure) -> bool {
    st == SyllableStructure::All || st == SyllableStructure::VC || st == SyllableStructure::CVC
}

/// The onset shapes of one nucleus: `init + n` for each onset-legal
/// cluster in order, minus the exact members of the disabled list.
pub open spec fn onset_row(
    n: Seq<char>,
    inits: Seq<Seq<char>>,
    disabled: Seq<Seq<char>>,
) -> Seq<Seq<char>>
    decreases inits.len(),
{
    if inits.len() == 0 {
        Seq::empty()
    } else {
        let rest = onset_row(n, inits.drop_last(), disabled);
        if disabled.contains(inits.last() + n) {
            rest
        } else {
            rest.push(inits.last() + n)
        }
    }
}

/// The coda shapes of one nucleus: `n + coda` for each coda-legal
/// cluster in order, minus the exact members of the disabled list.
pub open spec fn coda_row(
    n: Seq<char>,
    codas: Seq<Seq<char>>,
    disabled: Seq<Seq<char>>,
) -> Seq<Seq<char>>
    decreases codas.len(),
{
    if codas.len() == 0 {
        Seq::empty()
    } else {
        let rest = coda_row(n, codas.drop_last(), disabled);
        if disabled.contains(n + codas.last()) {
            rest
        } else {
            rest.push(n + codas.last())
        }
    }
}

/// The three-segment shapes of one nucleus and one onset: `init + n +
/// coda` for each coda-legal cluster in order, minus the disabled list.
pub open spec fn cvc_inner(
    init: Seq<char>,
    n: Seq<char>,
    codas: Seq<Seq<char>>,
    disabled: Seq<Seq<char>>,
) -> Seq<Seq<char>>
    decreases codas.len(),
{
    if codas.len() == 0 {
        Seq::empty()
    } else {
        let rest = cvc_inner(init, n, codas.drop_last(), disabled);
        if disabled.contains(init + n + codas.last()) {
            rest
        } else {
            rest.push(init + n + codas.last())
        }
    }
}

/// The three-segment shapes of one nucleus: one `cvc_inner` row per
/// onset-legal cluster, rows in onset order.
pub open spec fn cvc_rows(
    n: Seq<char>,
    inits: Seq<Seq<char>>,
    codas: Seq<Seq<char>>,
    disabled: Seq<Seq<char>>,
) -> Seq<Seq<char>>
    decreases inits.len(),
{
    if inits.len() == 0 {
        Seq::empty()
    } else {
        cvc_rows(n, inits.drop_last(), codas, disabled) + cvc_inner(
            inits.last(),
            n,
            codas,
            disabled,
        )
    }
}

/// Everything one nucleus value contributes, in emission order: the bare
/// nucleus, always and exactly once; then its onset shapes, coda shapes
/// and three-segment shapes, each block only where the structure asks
/// for it.
pub open spec fn nucleus_block(
    st: SyllableStructure,
    n: Seq<char>,
    inits: Seq<Seq<char>>,
    codas: Seq<Seq<char>>,
    disabled: Seq<Seq<char>>,
) -> Seq<Seq<char>> {
    seq![n] + (if has_onset(st) {
        onset_row(n, inits, disabled)
    } else {
        Seq::empty()
    }) + (if has_coda(st) {
        coda_row(n, codas, disabled)
    } else {
        Seq::empty()
    }) + (if has_onset(st) && has_coda(st) {
        cvc_rows(n, inits, codas, disabled)
    } else {
        Seq::empty()
    })
}

/// The assembled inventory: one block per nucleus value, blocks in
/// nucleus order. Identical strings arising from different choices are
/// each retained; nothing is deduplicated.
pub open spec fn assemble(
    st: SyllableStructure,
    nuclei: Seq<Seq<char>>,
    inits: Seq<Seq<char>>,
    codas: Seq<Seq<char>>,
    disabled: Seq<Seq<char>>,
) -> Seq<Seq<char>>
    decreases nuclei.len(),
{
    if nuclei.len() == 0 {
        Seq::empty()
    } else {
        assemble(st, nuclei.drop_last(), inits, codas, disabled) + nucleus_block(
            st,
            nuclei.last(),
            inits,
            codas,
            disabled,
        )
    }
}

// ---------------------------------------------------------------------
// Plain cross products (the fixed-inventory generator)
// ---------------------------------------------------------------------

/// `x` concatenated with each element of `ys`, in order.
pub open spec fn row2(x: Seq<char>, ys: Seq<Seq<char>>) -> Seq<Seq<char>>
    decreases ys.len(),
{
    if ys.len() == 0 {
        Seq::empty()
    } else {
        row2(x, ys.drop_last()).push(x + ys.last())
    }
}

/// The full ordered cross product `xs[i] + ys[j]`, row by row.
pub open spec fn cross2(xs: Seq<Seq<char>>, ys: Seq<Seq<char>>) -> Seq<Seq<char>>
    decreases xs.len(),
{
    if xs.len() == 0 {
        Seq::empty()
    } else {
        cross2(xs.drop_last(), ys) + row2(xs.last(), ys)
    }
}

/// `x + ys[j] + zs[k]` for every pair of indices, `ys` outer.
pub open spec fn row3(x: Seq<char>, ys: Seq<Seq<char>>, zs: Seq<Seq<char>>) -> Seq<Seq<char>>
    decreases ys.len(),
{
    if ys.len() == 0 {
        Seq::empty()
    } else {
        row3(x, ys.drop_last(), zs) + row2(x + ys.last(), zs)
    }
}

/// The full ordered triple cross product `xs[i] + ys[j] + zs[k]`.
pub open spec fn cross3(
    xs: Seq<Seq<char>>,
    ys: Seq<Seq<char>>,
    zs: Seq<Seq<char>>,
) -> Seq<Seq<char>>
    decreases xs.len(),
{
    if xs.len() == 0 {
        Seq::empty()
    } else {
        cross3(xs.drop_last(), ys, zs) + row3(xs.last(), ys, zs)
    }
}

} // verus!
