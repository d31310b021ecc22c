//! The general properties of the generation stages, stated over the
//! specification model and proved once, for every input.

use vstd::prelude::*;

use crate::model;
use crate::settings::ConsonantCluster;
use crate::settings::Diphthongs;
use crate::settings::SyllableStructure;

verus! {

broadcast use vstd::seq_lib::group_seq_properties;

// ---------------------------------------------------------------------
// Shared helpers
// ---------------------------------------------------------------------

/// No two elements of `xs` are equal.
pub open spec fn distinct(xs: Seq<Seq<char>>) -> bool {
    forall|i: int, j: int| 0 <= i < j < xs.len() ==> xs[i] != xs[j]
}

/// How often `v` occurs in `xs`.
pub open spec fn count_eq(xs: Seq<Seq<char>>, v: Seq<char>) -> nat
    decreases xs.len(),
{
    if xs.len() == 0 {
        0
    } else {
        count_eq(xs.drop_last(), v) + (if xs.last() == v {
            1nat
        } else {
            0nat
        })
    }
}

/// A member of a concatenation is a member of one of the parts.
proof fn lemma_concat_contains_split(a: Seq<Seq<char>>, b: Seq<Seq<char>>, x: Seq<char>)
    requires
        (a + b).contains(x),
    ensures
        a.contains(x) || b.contains(x),
{
    let idx = choose|i: int| 0 <= i < (a + b).len() && (a + b)[i] == x;
    if idx < a.len() {
        assert(a[idx] == x);
    } else {
        assert(b[idx - a.len()] == x);
    }
}

proof fn lemma_count_zero(xs: Seq<Seq<char>>, v: Seq<char>)
    requires
        forall|i: int| 0 <= i < xs.len() ==> xs[i] != v,
    ensures
        count_eq(xs, v) == 0,
    decreases xs.len(),
{
    if xs.len() > 0 {
        lemma_count_zero(xs.drop_last(), v);
    }
}

proof fn lemma_count_one(xs: Seq<Seq<char>>, k: int)
    requires
        distinct(xs),
        0 <= k < xs.len(),
    ensures
        count_eq(xs, xs[k]) == 1,
    decreases xs.len(),
{
    if k == xs.len() - 1 {
        lemma_count_zero(xs.drop_last(), xs[k]);
    } else {
        assert(distinct(xs.drop_last()));
        assert(xs.drop_last()[k] == xs[k]);
        lemma_count_one(xs.drop_last(), k);
        assert(xs.last() != xs[k]);
    }
}

// ---------------------------------------------------------------------
// Diphthong counting and shape
// ---------------------------------------------------------------------

proof fn lemma_diphthong_row_all_len(v1: Seq<char>, inner: Seq<Seq<char>>, disabled: Seq<Seq<char>>)
    ensures
        model::diphthong_row(Diphthongs::All, v1, inner, disabled).len() == inner.len(),
    decreases inner.len(),
{
    if inner.len() > 0 {
        lemma_diphthong_row_all_len(v1, inner.drop_last(), disabled);
    }
}

proof fn lemma_diphthong_table_all_len(
    outer: Seq<Seq<char>>,
    inner: Seq<Seq<char>>,
    disabled: Seq<Seq<char>>,
)
    ensures
        model::diphthong_table(Diphthongs::All, outer, inner, disabled).len() == outer.len()
            * inner.len(),
    decreases outer.len(),
{
    if outer.len() == 0 {
        assert(outer.len() * inner.len() == 0) by (nonlinear_arith)
            requires
                outer.len() == 0,
        ;
    } else {
        lemma_diphthong_table_all_len(outer.drop_last(), inner, disabled);
        lemma_diphthong_row_all_len(outer.last(), inner, disabled);
        assert((outer.len() - 1) * inner.len() + inner.len() == outer.len() * inner.len())
            by (nonlinear_arith);
    }
}

/// LAW: mode `All` derives exactly |V| * |V| diphthongs from the vowel
/// list `vowels`, self-pairs included.
pub proof fn lemma_diphthongs_all_count(vowels: Seq<Seq<char>>, disabled: Seq<Seq<char>>)
    ensures
        model::diphthong_table(Diphthongs::All, vowels, vowels, disabled).len() == vowels.len()
            * vowels.len(),
{
    lemma_diphthong_table_all_len(vowels, vowels, disabled);
}

proof fn lemma_diphthong_row_no_long_len(
    v1: Seq<char>,
    inner: Seq<Seq<char>>,
    disabled: Seq<Seq<char>>,
)
    ensures
        model::diphthong_row(Diphthongs::NoLong, v1, inner, disabled).len() + count_eq(inner, v1)
            == inner.len(),
    decreases inner.len(),
{
    if inner.len() > 0 {
        lemma_diphthong_row_no_long_len(v1, inner.drop_last(), disabled);
    }
}

proof fn lemma_diphthong_table_no_long_len(
    vowels: Seq<Seq<char>>,
    disabled: Seq<Seq<char>>,
    k: int,
)
    requires
        distinct(vowels),
        0 <= k <= vowels.len(),
    ensures
        model::diphthong_table(Diphthongs::NoLong, vowels.take(k), vowels, disabled).len() == k * (
        vowels.len() - 1),
    decreases k,
{
    if k == 0 {
        assert(vowels.take(0) =~= Seq::<Seq<char>>::empty());
    } else {
        lemma_diphthong_table_no_long_len(vowels, disabled, k - 1);
        assert(vowels.take(k).drop_last() =~= vowels.take(k - 1));
        assert(vowels.take(k).last() == vowels[k - 1]);
        lemma_diphthong_row_no_long_len(vowels[k - 1], vowels, disabled);
        lemma_count_one(vowels, k - 1);
        assert((k - 1) * (vowels.len() - 1) + (vowels.len() - 1) == k * (vowels.len() - 1))
            by (nonlinear_arith);
    }
}

proof fn lemma_diphthong_row_member(
    mode: Diphthongs,
    v1: Seq<char>,
    inner: Seq<Seq<char>>,
    disabled: Seq<Seq<char>>,
)
    ensures
        forall|d: Seq<char>|
            #[trigger] model::diphthong_row(mode, v1, inner, disabled).contains(d) ==> exists|j: int|
                0 <= j < inner.len() && model::diphthong_keep(mode, v1, inner[j], disabled) && d
                    == v1 + inner[j],
    decreases inner.len(),
{
    if inner.len() > 0 {
        lemma_diphthong_row_member(mode, v1, inner.drop_last(), disabled);
        assert forall|d: Seq<char>|
            #[trigger] model::diphthong_row(mode, v1, inner, disabled).contains(d) implies exists|
            j: int,
        |
            0 <= j < inner.len() && model::diphthong_keep(mode, v1, inner[j], disabled) && d == v1
                + inner[j] by {
            let rest = model::diphthong_row(mode, v1, inner.drop_last(), disabled);
            if model::diphthong_keep(mode, v1, inner.last(), disabled) {
                if rest.contains(d) {
                    let j = choose|j: int|
                        0 <= j < inner.drop_last().len() && model::diphthong_keep(
                            mode,
                            v1,
                            inner.drop_last()[j],
                            disabled,
                        ) && d == v1 + inner.drop_last()[j];
                    assert(inner[j] == inner.drop_last()[j]);
                } else {
                    assert(d == v1 + inner[inner.len() - 1]);
                }
            } else {
                let j = choose|j: int|
                    0 <= j < inner.drop_last().len() && model::diphthong_keep(
                        mode,
                        v1,
                        inner.drop_last()[j],
                        disabled,
                    ) && d == v1 + inner.drop_last()[j];
                assert(inner[j] == inner.drop_last()[j]);
            }
        }
    }
}

proof fn lemma_diphthong_table_member(
    mode: Diphthongs,
    outer: Seq<Seq<char>>,
    inner: Seq<Seq<char>>,
    disabled: Seq<Seq<char>>,
)
    ensures
        forall|d: Seq<char>|
            #[trigger] model::diphthong_table(mode, outer, inner, disabled).contains(d) ==> exists|
                i: int,
                j: int,
            |
                0 <= i < outer.len() && 0 <= j < inner.len() && model::diphthong_keep(
                    mode,
                    outer[i],
                    inner[j],
                    disabled,
                ) && d == outer[i] + inner[j],
    decreases outer.len(),
{
    if outer.len() > 0 {
        lemma_diphthong_table_member(mode, outer.drop_last(), inner, disabled);
        lemma_diphthong_row_member(mode, outer.last(), inner, disabled);
        assert forall|d: Seq<char>|
            #[trigger] model::diphthong_table(mode, outer, inner, disabled).contains(d) implies
            exists|i: int, j: int|
                0 <= i < outer.len() && 0 <= j < inner.len() && model::diphthong_keep(
                    mode,
                    outer[i],
                    inner[j],
                    disabled,
                ) && d == outer[i] + inner[j] by {
            let prev = model::diphthong_table(mode, outer.drop_last(), inner, disabled);
            let row = model::diphthong_row(mode, outer.last(), inner, disabled);
            lemma_concat_contains_split(prev, row, d);
            if prev.contains(d) {
                let (i, j) = choose|i: int, j: int|
                    0 <= i < outer.drop_last().len() && 0 <= j < inner.len()
                        && model::diphthong_keep(mode, outer.drop_last()[i], inner[j], disabled)
                        && d == outer.drop_last()[i] + inner[j];
                assert(outer[i] == outer.drop_last()[i]);
            } else {
                let j = choose|j: int|
                    0 <= j < inner.len() && model::diphthong_keep(
                        mode,
                        outer.last(),
                        inner[j],
                        disabled,
                    ) && d == outer.last() + inner[j];
                assert(outer[outer.len() - 1] == outer.last());
            }
        }
    }
}

/// LAW: on a vowel list without repeats, mode `NoLong` derives exactly
/// |V| * |V| - |V| diphthongs, and each of them is the concatenation of
/// two unequal vowels.
pub proof fn lemma_diphthongs_no_long(vowels: Seq<Seq<char>>, disabled: Seq<Seq<char>>)
    requires
        distinct(vowels),
    ensures
        model::diphthong_table(Diphthongs::NoLong, vowels, vowels, disabled).len() == vowels.len()
            * vowels.len() - vowels.len(),
        forall|d: Seq<char>|
            #[trigger] model::diphthong_table(Diphthongs::NoLong, vowels, vowels, disabled).contains(
                d,
            ) ==> exists|i: int, j: int|
                0 <= i < vowels.len() && 0 <= j < vowels.len() && vowels[i] != vowels[j] && d
                    == vowels[i] + vowels[j],
{
    lemma_diphthong_table_no_long_len(vowels, disabled, vowels.len() as int);
    assert(vowels.take(vowels.len() as int) =~= vowels);
    assert(vowels.len() * (vowels.len() - 1) == vowels.len() * vowels.len() - vowels.len())
        by (nonlinear_arith);
    lemma_diphthong_table_member(Diphthongs::NoLong, vowels, vowels, disabled);
}

// ---------------------------------------------------------------------
// Cluster counting and shape
// ---------------------------------------------------------------------

proof fn lemma_cluster_children_all_d1_len(
    done: Seq<Seq<char>>,
    all: Seq<Seq<char>>,
    w: Seq<char>,
    p: Seq<char>,
    disabled: Seq<Seq<char>>,
)
    ensures
        model::cluster_children(ConsonantCluster::All, done, all, w, p, disabled, 1).len()
            == done.len(),
    decreases done.len(),
{
    if done.len() > 0 {
        lemma_cluster_children_all_d1_len(done.drop_last(), all, w, p, disabled);
        assert(model::cluster_children(
            ConsonantCluster::All,
            all,
            all,
            w + done.last(),
            done.last(),
            disabled,
            0,
        ) =~= Seq::<Seq<char>>::empty());
    }
}

proof fn lemma_cluster_children_all_d1_member(
    done: Seq<Seq<char>>,
    all: Seq<Seq<char>>,
    w: Seq<char>,
    p: Seq<char>,
    disabled: Seq<Seq<char>>,
)
    ensures
        forall|x: Seq<char>|
            #[trigger] model::cluster_children(
                ConsonantCluster::All,
                done,
                all,
                w,
                p,
                disabled,
                1,
            ).contains(x) ==> exists|j: int| 0 <= j < done.len() && x == w + done[j],
    decreases done.len(),
{
    if done.len() > 0 {
        lemma_cluster_children_all_d1_member(done.drop_last(), all, w, p, disabled);
        assert forall|x: Seq<char>|
            #[trigger] model::cluster_children(
                ConsonantCluster::All,
                done,
                all,
                w,
                p,
                disabled,
                1,
            ).contains(x) implies exists|j: int| 0 <= j < done.len() && x == w + done[j] by {
            let rest = model::cluster_children(
                ConsonantCluster::All,
                done.drop_last(),
                all,
                w,
                p,
                disabled,
                1,
            );
            let here = seq![w + done.last()] + model::cluster_children(
                ConsonantCluster::All,
                all,
                all,
                w + done.last(),
                done.last(),
                disabled,
                0,
            );
            lemma_concat_contains_split(rest, here, x);
            if rest.contains(x) {
                let j = choose|j: int|
                    0 <= j < done.drop_last().len() && x == w + done.drop_last()[j];
                assert(done[j] == done.drop_last()[j]);
            } else {
                assert(here =~= seq![w + done.last()]);
                assert(x == w + done[done.len() - 1]);
            }
        }
    }
}

proof fn lemma_cluster_table_all_cc_len(
    cs: Seq<Seq<char>>,
    disabled: Seq<Seq<char>>,
    k: int,
)
    requires
        0 <= k <= cs.len(),
    ensures
        model::cluster_table(ConsonantCluster::All, cs.take(k), cs, disabled, 1).len() == k
            * cs.len(),
    decreases k,
{
    if k == 0 {
        assert(cs.take(0) =~= Seq::<Seq<char>>::empty());
    } else {
        lemma_cluster_table_all_cc_len(cs, disabled, k - 1);
        assert(cs.take(k).drop_last() =~= cs.take(k - 1));
        assert(cs.take(k).last() == cs[k - 1]);
        lemma_cluster_children_all_d1_len(cs, cs, cs[k - 1], cs[k - 1], disabled);
        assert((k - 1) * cs.len() + cs.len() == k * cs.len()) by (nonlinear_arith);
    }
}

proof fn lemma_cluster_table_all_cc_member(
    cs: Seq<Seq<char>>,
    disabled: Seq<Seq<char>>,
    k: int,
)
    requires
        0 <= k <= cs.len(),
    ensures
        forall|x: Seq<char>|
            #[trigger] model::cluster_table(
                ConsonantCluster::All,
                cs.take(k),
                cs,
                disabled,
                1,
            ).contains(x) ==> exists|i: int, j: int|
                0 <= i < cs.len() && 0 <= j < cs.len() && x == cs[i] + cs[j],
    decreases k,
{
    if k > 0 {
        lemma_cluster_table_all_cc_member(cs, disabled, k - 1);
        assert(cs.take(k).drop_last() =~= cs.take(k - 1));
        assert(cs.take(k).last() == cs[k - 1]);
        lemma_cluster_children_all_d1_member(cs, cs, cs[k - 1], cs[k - 1], disabled);
        assert forall|x: Seq<char>|
            #[trigger] model::cluster_table(
                ConsonantCluster::All,
                cs.take(k),
                cs,
                disabled,
                1,
            ).contains(x) implies exists|i: int, j: int|
            0 <= i < cs.len() && 0 <= j < cs.len() && x == cs[i] + cs[j] by {
            let prev = model::cluster_table(
                ConsonantCluster::All,
                cs.take(k - 1),
                cs,
                disabled,
                1,
            );
            let row = model::cluster_children(
                ConsonantCluster::All,
                cs,
                cs,
                cs[k - 1],
                cs[k - 1],
                disabled,
                1,
            );
            lemma_concat_contains_split(prev, row, x);
            if row.contains(x) {
                let j = choose|j: int| 0 <= j < cs.len() && x == cs[k - 1] + #[trigger] cs[j];
                assert(x == cs[k - 1] + cs[j]);
            }
        }
    }
}

proof fn lemma_filter_keep_all(xs: Seq<Seq<char>>, excl: Seq<Seq<char>>)
    requires
        forall|x: Seq<char>| #[trigger] xs.contains(x) ==> !excl.contains(x),
    ensures
        model::filter_not_in(xs, excl) == xs,
    decreases xs.len(),
{
    if xs.len() > 0 {
        assert forall|x: Seq<char>| #[trigger] xs.drop_last().contains(x) implies !excl.contains(
            x,
        ) by {
            let idx = choose|i: int| 0 <= i < xs.drop_last().len() && xs.drop_last()[i] == x;
            assert(xs[idx] == x);
            assert(xs.contains(x));
        }
        lemma_filter_keep_all(xs.drop_last(), excl);
        assert(xs.contains(xs.last()));
        assert(model::filter_not_in(xs, excl) =~= xs);
    }
}

/// LAW: with consonant list C, |C| = m, and length `CC`, mode `All`
/// derives exactly m * m two-symbol clusters.
pub proof fn lemma_clusters_all_cc_count(cs: Seq<Seq<char>>, disabled: Seq<Seq<char>>)
    ensures
        model::cluster_table(ConsonantCluster::All, cs, cs, disabled, 1).len() == cs.len()
            * cs.len(),
{
    assert(cs.take(cs.len() as int) =~= cs);
    lemma_cluster_table_all_cc_len(cs, disabled, cs.len() as int);
}

/// LAW: with consonant list C, |C| = m, and length `CC`, mode `All`
/// yields an effective pool of exactly m + m * m entries — the m bare
/// consonants and the m * m two-symbol clusters — provided no
/// two-symbol concatenation collides with a bare consonant.
pub proof fn lemma_cluster_pool_all_cc(cs: Seq<Seq<char>>, disabled: Seq<Seq<char>>)
    requires
        forall|i: int, j: int|
            0 <= i < cs.len() && 0 <= j < cs.len() ==> !cs.contains(#[trigger] (cs[i] + cs[j])),
    ensures
        model::effective_pool(
            cs,
            model::cluster_table(ConsonantCluster::All, cs, cs, disabled, 1),
        ).len() == cs.len() + cs.len() * cs.len(),
{
    let table = model::cluster_table(ConsonantCluster::All, cs, cs, disabled, 1);
    assert(cs.take(cs.len() as int) =~= cs);
    lemma_cluster_table_all_cc_len(cs, disabled, cs.len() as int);
    lemma_cluster_table_all_cc_member(cs, disabled, cs.len() as int);
    assert forall|x: Seq<char>| #[trigger] table.contains(x) implies !cs.contains(x) by {
        let (i, j) = choose|i: int, j: int|
            0 <= i < cs.len() && 0 <= j < cs.len() && x == cs[i] + cs[j];
    }
    lemma_filter_keep_all(table, cs);
}

// ---------------------------------------------------------------------
// The no-double rule
// ---------------------------------------------------------------------

/// Every part is a member of the consonant list `cs`.
pub open spec fn parts_from(parts: Seq<Seq<char>>, cs: Seq<Seq<char>>) -> bool {
    forall|i: int| 0 <= i < parts.len() ==> cs.contains(#[trigger] parts[i])
}

/// No two adjacent parts are equal.
pub open spec fn no_adjacent_repeat(parts: Seq<Seq<char>>) -> bool {
    forall|i: int| 0 <= i && i + 1 < parts.len() ==> #[trigger] parts[i] != parts[i + 1]
}

/// `w` is the concatenation of two or more symbols of `cs`, no two
/// adjacent ones equal.
pub open spec fn is_no_double_word(cs: Seq<Seq<char>>, w: Seq<char>) -> bool {
    exists|parts: Seq<Seq<char>>|
        parts.len() >= 2 && w == #[trigger] parts.flatten() && parts_from(parts, cs)
            && no_adjacent_repeat(parts)
}

proof fn lemma_nodouble_children_words(
    done: Seq<Seq<char>>,
    all: Seq<Seq<char>>,
    w: Seq<char>,
    p: Seq<char>,
    disabled: Seq<Seq<char>>,
    depth: nat,
    parts: Seq<Seq<char>>,
)
    requires
        forall|k: int| 0 <= k < done.len() ==> all.contains(#[trigger] done[k]),
        parts.len() >= 1,
        parts.last() == p,
        w == parts.flatten(),
        parts_from(parts, all),
        no_adjacent_repeat(parts),
    ensures
        forall|x: Seq<char>|
            #[trigger] model::cluster_children(
                ConsonantCluster::NoDouble,
                done,
                all,
                w,
                p,
                disabled,
                depth,
            ).contains(x) ==> is_no_double_word(all, x),
    decreases depth, done.len(),
{
    if done.len() > 0 && depth > 0 {
        assert forall|k: int| 0 <= k < done.drop_last().len() implies all.contains(
            #[trigger] done.drop_last()[k],
        ) by {
            assert(done.drop_last()[k] == done[k]);
        }
        lemma_nodouble_children_words(done.drop_last(), all, w, p, disabled, depth, parts);
        let c = done.last();
        let rest = model::cluster_children(
            ConsonantCluster::NoDouble,
            done.drop_last(),
            all,
            w,
            p,
            disabled,
            depth,
        );
        if p != c {
            let parts2 = parts.push(c);
            parts.lemma_flatten_push(c);
            assert(parts2.flatten() == w + c);
            assert(all.contains(done[done.len() - 1]));
            assert(parts2.last() == c);
            assert forall|i: int| 0 <= i < parts2.len() implies all.contains(
                #[trigger] parts2[i],
            ) by {
                if i < parts.len() {
                    assert(parts2[i] == parts[i]);
                }
            }
            assert forall|i: int| 0 <= i && i + 1 < parts2.len() implies #[trigger] parts2[i]
                != parts2[i + 1] by {
                if i + 1 < parts.len() {
                    assert(parts2[i] == parts[i] && parts2[i + 1] == parts[i + 1]);
                } else {
                    assert(parts2[i] == parts.last() && parts2[i + 1] == c);
                }
            }
            lemma_nodouble_children_words(
                all,
                all,
                w + c,
                c,
                disabled,
                (depth - 1) as nat,
                parts2,
            );
            assert(is_no_double_word(all, w + c));
            let subtree = model::cluster_children(
                ConsonantCluster::NoDouble,
                all,
                all,
                w + c,
                c,
                disabled,
                (depth - 1) as nat,
            );
            let here = seq![w + c] + subtree;
            assert forall|x: Seq<char>|
                #[trigger] model::cluster_children(
                    ConsonantCluster::NoDouble,
                    done,
                    all,
                    w,
                    p,
                    disabled,
                    depth,
                ).contains(x) implies is_no_double_word(all, x) by {
                lemma_concat_contains_split(rest, here, x);
                if here.contains(x) {
                    lemma_concat_contains_split(seq![w + c], subtree, x);
                    if seq![w + c].contains(x) {
                        assert(x == w + c);
                    }
                }
            }
        } else {
            assert forall|x: Seq<char>|
                #[trigger] model::cluster_children(
                    ConsonantCluster::NoDouble,
                    done,
                    all,
                    w,
                    p,
                    disabled,
                    depth,
                ).contains(x) implies is_no_double_word(all, x) by {
                lemma_concat_contains_split(rest, Seq::empty(), x);
                assert(!Seq::<Seq<char>>::empty().contains(x));
            }
        }
    }
}

proof fn lemma_nodouble_table_words(
    cs: Seq<Seq<char>>,
    disabled: Seq<Seq<char>>,
    depth: nat,
    k: int,
)
    requires
        0 <= k <= cs.len(),
    ensures
        forall|x: Seq<char>|
            #[trigger] model::cluster_table(
                ConsonantCluster::NoDouble,
                cs.take(k),
                cs,
                disabled,
                depth,
            ).contains(x) ==> is_no_double_word(cs, x),
    decreases k,
{
    if k > 0 {
        lemma_nodouble_table_words(cs, disabled, depth, k - 1);
        assert(cs.take(k).drop_last() =~= cs.take(k - 1));
        assert(cs.take(k).last() == cs[k - 1]);
        let c = cs[k - 1];
        let parts = seq![c];
        parts.lemma_flatten_one_element();
        assert(parts.flatten() == c);
        assert(cs.contains(c));
        assert forall|i: int| 0 <= i < parts.len() implies cs.contains(#[trigger] parts[i]) by {
            assert(parts[i] == c);
        }
        lemma_nodouble_children_words(cs, cs, c, c, disabled, depth, parts);
        let prev = model::cluster_table(
            ConsonantCluster::NoDouble,
            cs.take(k - 1),
            cs,
            disabled,
            depth,
        );
        let row = model::cluster_children(ConsonantCluster::NoDouble, cs, cs, c, c, disabled, depth);
        assert forall|x: Seq<char>|
            #[trigger] model::cluster_table(
                ConsonantCluster::NoDouble,
                cs.take(k),
                cs,
                disabled,
                depth,
            ).contains(x) implies is_no_double_word(cs, x) by {
            lemma_concat_contains_split(prev, row, x);
        }
    }
}

proof fn lemma_nodouble_children_subset(
    done: Seq<Seq<char>>,
    all: Seq<Seq<char>>,
    w: Seq<char>,
    p: Seq<char>,
    disabled: Seq<Seq<char>>,
    depth: nat,
)
    ensures
        forall|x: Seq<char>|
            #[trigger] model::cluster_children(
                ConsonantCluster::NoDouble,
                done,
                all,
                w,
                p,
                disabled,
                depth,
            ).contains(x) ==> model::cluster_children(
                ConsonantCluster::All,
                done,
                all,
                w,
                p,
                disabled,
                depth,
            ).contains(x),
    decreases depth, done.len(),
{
    if done.len() > 0 && depth > 0 {
        lemma_nodouble_children_subset(done.drop_last(), all, w, p, disabled, depth);
        let c = done.last();
        lemma_nodouble_children_subset(all, all, w + c, c, disabled, (depth - 1) as nat);
        let rest_nd = model::cluster_children(
            ConsonantCluster::NoDouble,
            done.drop_last(),
            all,
            w,
            p,
            disabled,
            depth,
        );
        let sub_nd = model::cluster_children(
            ConsonantCluster::NoDouble,
            all,
            all,
            w + c,
            c,
            disabled,
            (depth - 1) as nat,
        );
        let rest_all = model::cluster_children(
            ConsonantCluster::All,
            done.drop_last(),
            all,
            w,
            p,
            disabled,
            depth,
        );
        let sub_all = model::cluster_children(
            ConsonantCluster::All,
            all,
            all,
            w + c,
            c,
            disabled,
            (depth - 1) as nat,
        );
        let here_all = seq![w + c] + sub_all;
        assert forall|x: Seq<char>|
            #[trigger] model::cluster_children(
                ConsonantCluster::NoDouble,
                done,
                all,
                w,
                p,
                disabled,
                depth,
            ).contains(x) implies model::cluster_children(
            ConsonantCluster::All,
            done,
            all,
            w,
            p,
            disabled,
            depth,
        ).contains(x) by {
            if p != c {
                let here_nd = seq![w + c] + sub_nd;
                lemma_concat_contains_split(rest_nd, here_nd, x);
                if here_nd.contains(x) {
                    lemma_concat_contains_split(seq![w + c], sub_nd, x);
                    if seq![w + c].contains(x) {
                        assert(here_all[0] == x);
                        assert(here_all.contains(x));
                    } else {
                        assert(sub_all.contains(x));
                        assert(here_all.contains(x));
                    }
                    assert((rest_all + here_all).contains(x));
                } else {
                    assert(rest_all.contains(x));
                    assert((rest_all + here_all).contains(x));
                }
            } else {
                lemma_concat_contains_split(rest_nd, Seq::empty(), x);
                assert(!Seq::<Seq<char>>::empty().contains(x));
                assert(rest_all.contains(x));
                assert((rest_all + here_all).contains(x));
            }
        }
    }
}

proof fn lemma_nodouble_table_subset(
    cs: Seq<Seq<char>>,
    disabled: Seq<Seq<char>>,
    depth: nat,
    k: int,
)
    requires
        0 <= k <= cs.len(),
    ensures
        forall|x: Seq<char>|
            #[trigger] model::cluster_table(
                ConsonantCluster::NoDouble,
                cs.take(k),
                cs,
                disabled,
                depth,
            ).contains(x) ==> model::cluster_table(
                ConsonantCluster::All,
                cs.take(k),
                cs,
                disabled,
                depth,
            ).contains(x),
    decreases k,
{
    if k > 0 {
        lemma_nodouble_table_subset(cs, disabled, depth, k - 1);
        assert(cs.take(k).drop_last() =~= cs.take(k - 1));
        assert(cs.take(k).last() == cs[k - 1]);
        let c = cs[k - 1];
        lemma_nodouble_children_subset(cs, cs, c, c, disabled, depth);
        let prev_nd = model::cluster_table(
            ConsonantCluster::NoDouble,
            cs.take(k - 1),
            cs,
            disabled,
            depth,
        );
        let row_nd = model::cluster_children(
            ConsonantCluster::NoDouble,
            cs,
            cs,
            c,
            c,
            disabled,
            depth,
        );
        let prev_all = model::cluster_table(
            ConsonantCluster::All,
            cs.take(k - 1),
            cs,
            disabled,
            depth,
        );
        let row_all = model::cluster_children(ConsonantCluster::All, cs, cs, c, c, disabled, depth);
        assert forall|x: Seq<char>|
            #[trigger] model::cluster_table(
                ConsonantCluster::NoDouble,
                cs.take(k),
                cs,
                disabled,
                depth,
            ).contains(x) implies model::cluster_table(
            ConsonantCluster::All,
            cs.take(k),
            cs,
            disabled,
            depth,
        ).contains(x) by {
            lemma_concat_contains_split(prev_nd, row_nd, x);
            if prev_nd.contains(x) {
                assert(prev_all.contains(x));
            } else {
                assert(row_all.contains(x));
            }
            assert((prev_all + row_all).contains(x));
        }
    }
}

/// LAW: every cluster that mode `NoDouble` derives is the concatenation
/// of consonant symbols with no two adjacent ones equal, and is also
/// derived by mode `All` with the same consonants and length.
pub proof fn lemma_no_double_clusters(cs: Seq<Seq<char>>, disabled: Seq<Seq<char>>, depth: nat)
    ensures
        forall|x: Seq<char>|
            #[trigger] model::cluster_table(
                ConsonantCluster::NoDouble,
                cs,
                cs,
                disabled,
                depth,
            ).contains(x) ==> is_no_double_word(cs, x),
        forall|x: Seq<char>|
            #[trigger] model::cluster_table(
                ConsonantCluster::NoDouble,
                cs,
                cs,
                disabled,
                depth,
            ).contains(x) ==> model::cluster_table(
                ConsonantCluster::All,
                cs,
                cs,
                disabled,
                depth,
            ).contains(x),
{
    assert(cs.take(cs.len() as int) =~= cs);
    lemma_nodouble_table_words(cs, disabled, depth, cs.len() as int);
    lemma_nodouble_table_subset(cs, disabled, depth, cs.len() as int);
}

/// An index of a shortest element of `cs`.
proof fn min_len_index(cs: Seq<Seq<char>>) -> (m: int)
    requires
        cs.len() >= 1,
    ensures
        0 <= m < cs.len(),
        forall|i: int| 0 <= i < cs.len() ==> cs[m].len() <= #[trigger] cs[i].len(),
    decreases cs.len(),
{
    if cs.len() == 1 {
        0
    } else {
        let prev = min_len_index(cs.drop_last());
        assert(cs.drop_last()[prev] == cs[prev]);
        if cs.last().len() < cs[prev].len() {
            let m = cs.len() - 1;
            assert forall|i: int| 0 <= i < cs.len() implies cs[m].len() <= #[trigger] cs[i].len()
                by {
                if i < cs.len() - 1 {
                    assert(cs.drop_last()[i] == cs[i]);
                }
            }
            m
        } else {
            assert forall|i: int| 0 <= i < cs.len() implies cs[prev].len()
                <= #[trigger] cs[i].len() by {
                if i < cs.len() - 1 {
                    assert(cs.drop_last()[i] == cs[i]);
                }
            }
            prev
        }
    }
}

proof fn lemma_children_all_contains_pair(
    done: Seq<Seq<char>>,
    all: Seq<Seq<char>>,
    w: Seq<char>,
    p: Seq<char>,
    disabled: Seq<Seq<char>>,
    depth: nat,
    j: int,
)
    requires
        depth >= 1,
        0 <= j < done.len(),
    ensures
        model::cluster_children(ConsonantCluster::All, done, all, w, p, disabled, depth).contains(
            w + done[j],
        ),
    decreases done.len(),
{
    let rest = model::cluster_children(
        ConsonantCluster::All,
        done.drop_last(),
        all,
        w,
        p,
        disabled,
        depth,
    );
    let c = done.last();
    let here = seq![w + c] + model::cluster_children(
        ConsonantCluster::All,
        all,
        all,
        w + c,
        c,
        disabled,
        (depth - 1) as nat,
    );
    if j == done.len() - 1 {
        assert(here[0] == w + done[j]);
        assert(here.contains(w + done[j]));
        assert((rest + here).contains(w + done[j]));
    } else {
        assert(done.drop_last()[j] == done[j]);
        lemma_children_all_contains_pair(done.drop_last(), all, w, p, disabled, depth, j);
        assert((rest + here).contains(w + done[j]));
    }
}

proof fn lemma_table_all_contains_pair(
    cs: Seq<Seq<char>>,
    disabled: Seq<Seq<char>>,
    depth: nat,
    m: int,
    k: int,
)
    requires
        depth >= 1,
        0 <= m < k <= cs.len(),
    ensures
        model::cluster_table(ConsonantCluster::All, cs.take(k), cs, disabled, depth).contains(
            cs[m] + cs[m],
        ),
    decreases k,
{
    assert(cs.take(k).drop_last() =~= cs.take(k - 1));
    assert(cs.take(k).last() == cs[k - 1]);
    let prev = model::cluster_table(ConsonantCluster::All, cs.take(k - 1), cs, disabled, depth);
    let row = model::cluster_children(
        ConsonantCluster::All,
        cs,
        cs,
        cs[k - 1],
        cs[k - 1],
        disabled,
        depth,
    );
    if k - 1 == m {
        lemma_children_all_contains_pair(cs, cs, cs[m], cs[m], disabled, depth, m);
        assert((prev + row).contains(cs[m] + cs[m]));
    } else {
        lemma_table_all_contains_pair(cs, disabled, depth, m, k - 1);
        assert((prev + row).contains(cs[m] + cs[m]));
    }
}

proof fn lemma_flatten_len_lower(parts: Seq<Seq<char>>, minlen: int)
    requires
        minlen >= 0,
        forall|i: int| 0 <= i < parts.len() ==> #[trigger] parts[i].len() >= minlen,
    ensures
        parts.flatten().len() >= parts.len() * minlen,
    decreases parts.len(),
{
    if parts.len() == 0 {
        assert(parts.len() * minlen == 0) by (nonlinear_arith)
            requires
                parts.len() == 0,
        ;
    } else {
        let rest = parts.drop_first();
        assert forall|i: int| 0 <= i < rest.len() implies #[trigger] rest[i].len() >= minlen by {
            assert(rest[i] == parts[i + 1]);
        }
        lemma_flatten_len_lower(rest, minlen);
        assert(parts.flatten() == parts.first() + rest.flatten());
        assert(parts[0].len() >= minlen);
        assert(minlen + (parts.len() - 1) * minlen == parts.len() * minlen) by (nonlinear_arith);
    }
}

/// LAW: with at least one consonant, none of them empty, and a length
/// bound that derives at least pairs, the `NoDouble` derivation is a
/// strict subset of the `All` derivation: `All` derives the doubled
/// shortest consonant, and `NoDouble` derives nothing equal to it.
#[verifier::rlimit(50)]
pub proof fn lemma_no_double_strict(cs: Seq<Seq<char>>, disabled: Seq<Seq<char>>, depth: nat)
    requires
        cs.len() >= 1,
        depth >= 1,
        forall|i: int| 0 <= i < cs.len() ==> #[trigger] cs[i].len() >= 1,
    ensures
        exists|x: Seq<char>|
            #[trigger] model::cluster_table(ConsonantCluster::All, cs, cs, disabled, depth).contains(
                x,
            ) && !model::cluster_table(ConsonantCluster::NoDouble, cs, cs, disabled, depth).contains(
                x,
            ),
{
    let m = min_len_index(cs);
    let c = cs[m];
    let double = c + c;
    assert(cs.take(cs.len() as int) =~= cs);
    lemma_table_all_contains_pair(cs, disabled, depth, m, cs.len() as int);
    if model::cluster_table(ConsonantCluster::NoDouble, cs, cs, disabled, depth).contains(double) {
        lemma_nodouble_table_words(cs, disabled, depth, cs.len() as int);
        assert(is_no_double_word(cs, double));
        let parts = choose|parts: Seq<Seq<char>>|
            parts.len() >= 2 && double == #[trigger] parts.flatten() && parts_from(parts, cs)
                && no_adjacent_repeat(parts);
        assert forall|i: int| 0 <= i < parts.len() implies #[trigger] parts[i].len() >= c.len()
            by {
            assert(cs.contains(parts[i]));
            let idx = choose|idx: int| 0 <= idx < cs.len() && cs[idx] == parts[i];
            assert(cs[m].len() <= cs[idx].len());
        }
        lemma_flatten_len_lower(parts, c.len() as int);
        if parts.len() >= 3 {
            assert(parts.len() * c.len() >= 3 * c.len()) by (nonlinear_arith)
                requires
                    parts.len() >= 3,
                    c.len() >= 1,
            ;
            assert(double.len() >= 3 * c.len());
            assert(false);
        }
        let p0 = parts[0];
        let p1 = parts[1];
        assert(parts.drop_first().len() == 1);
        parts.drop_first().lemma_flatten_one_element();
        assert(parts.drop_first()[0] == p1);
        assert(parts.flatten() == p0 + p1);
        assert(p0.len() + p1.len() == 2 * c.len());
        assert(p0.len() == c.len() && p1.len() == c.len());
        assert forall|k: int| 0 <= k < c.len() implies p0[k] == c[k] by {
            assert(p0[k] == (p0 + p1)[k]);
            assert((c + c)[k] == c[k]);
        }
        assert(p0 =~= c);
        assert forall|k: int| 0 <= k < c.len() implies p1[k] == c[k] by {
            assert(p1[k] == (p0 + p1)[c.len() + k]);
            assert((c + c)[c.len() + k] == c[k]);
        }
        assert(p1 =~= c);
        assert(parts[0] != parts[1]);
        assert(false);
    }
}

// ---------------------------------------------------------------------
// Exclusion filtering
// ---------------------------------------------------------------------

proof fn lemma_filter_not_in_contains(xs: Seq<Seq<char>>, excl: Seq<Seq<char>>)
    ensures
        forall|x: Seq<char>|
            #[trigger] model::filter_not_in(xs, excl).contains(x) <==> xs.contains(x)
                && !excl.contains(x),
    decreases xs.len(),
{
    if xs.len() > 0 {
        lemma_filter_not_in_contains(xs.drop_last(), excl);
        assert forall|x: Seq<char>|
            #[trigger] model::filter_not_in(xs, excl).contains(x) <==> xs.contains(x)
                && !excl.contains(x) by {
            let rest = model::filter_not_in(xs.drop_last(), excl);
            if xs.contains(x) && !excl.contains(x) {
                let idx = choose|i: int| 0 <= i < xs.len() && xs[i] == x;
                if idx < xs.len() - 1 {
                    assert(xs.drop_last()[idx] == x);
                }
            }
            if model::filter_not_in(xs, excl).contains(x) {
                if !excl.contains(xs.last()) {
                    if rest.contains(x) {
                        assert(xs.contains(x));
                    }
                } else {
                    assert(rest.contains(x));
                }
                if rest.contains(x) {
                    assert(xs.drop_last().contains(x));
                    let idx = choose|i: int| 0 <= i < xs.drop_last().len() && xs.drop_last()[i] == x;
                    assert(xs[idx] == x);
                }
            }
        }
    }
}

/// LAW: a positional set holds exactly the members of the effective
/// pool that its exclusion list does not name; in particular no
/// excluded string is onset-legal or coda-legal, while the same string
/// stays legal in the other position unless excluded there too.
pub proof fn lemma_positional_set_contains(
    consonants: Seq<Seq<char>>,
    clusters: Seq<Seq<char>>,
    excl: Seq<Seq<char>>,
)
    ensures
        forall|x: Seq<char>|
            #[trigger] model::positional_set(consonants, clusters, excl).contains(x)
                <==> model::effective_pool(consonants, clusters).contains(x) && !excl.contains(x),
{
    lemma_filter_not_in_contains(model::effective_pool(consonants, clusters), excl);
}

// ---------------------------------------------------------------------
// Assembly shapes
// ---------------------------------------------------------------------

proof fn lemma_onset_row_member(n: Seq<char>, inits: Seq<Seq<char>>, disabled: Seq<Seq<char>>)
    ensures
        forall|x: Seq<char>|
            #[trigger] model::onset_row(n, inits, disabled).contains(x) ==> !disabled.contains(x)
                && exists|i: int| 0 <= i < inits.len() && x == #[trigger] inits[i] + n,
    decreases inits.len(),
{
    if inits.len() > 0 {
        lemma_onset_row_member(n, inits.drop_last(), disabled);
        assert forall|x: Seq<char>|
            #[trigger] model::onset_row(n, inits, disabled).contains(x) implies !disabled.contains(
            x,
        ) && exists|i: int| 0 <= i < inits.len() && x == #[trigger] inits[i] + n by {
            let rest = model::onset_row(n, inits.drop_last(), disabled);
            if rest.contains(x) {
                let i = choose|i: int| 0 <= i < inits.drop_last().len() && x == #[trigger] inits.drop_last()[i] + n;
                assert(inits[i] == inits.drop_last()[i]);
                assert(x == inits[i] + n);
            } else {
                assert(x == inits[inits.len() - 1] + n);
            }
        }
    }
}

proof fn lemma_coda_row_member(n: Seq<char>, codas: Seq<Seq<char>>, disabled: Seq<Seq<char>>)
    ensures
        forall|x: Seq<char>|
            #[trigger] model::coda_row(n, codas, disabled).contains(x) ==> !disabled.contains(x)
                && exists|k: int| 0 <= k < codas.len() && x == n + #[trigger] codas[k],
    decreases codas.len(),
{
    if codas.len() > 0 {
        lemma_coda_row_member(n, codas.drop_last(), disabled);
        assert forall|x: Seq<char>|
            #[trigger] model::coda_row(n, codas, disabled).contains(x) implies !disabled.contains(
            x,
        ) && exists|k: int| 0 <= k < codas.len() && x == n + #[trigger] codas[k] by {
            let rest = model::coda_row(n, codas.drop_last(), disabled);
            if rest.contains(x) {
                let k = choose|k: int| 0 <= k < codas.drop_last().len() && x == n + #[trigger] codas.drop_last()[k];
                assert(codas[k] == codas.drop_last()[k]);
                assert(x == n + codas[k]);
            } else {
                assert(x == n + codas[codas.len() - 1]);
            }
        }
    }
}

proof fn lemma_cvc_inner_member(
    init: Seq<char>,
    n: Seq<char>,
    codas: Seq<Seq<char>>,
    disabled: Seq<Seq<char>>,
)
    ensures
        forall|x: Seq<char>|
            #[trigger] model::cvc_inner(init, n, codas, disabled).contains(x) ==> !disabled.contains(
                x,
            ) && exists|k: int| 0 <= k < codas.len() && x == init + n + #[trigger] codas[k],
    decreases codas.len(),
{
    if codas.len() > 0 {
        lemma_cvc_inner_member(init, n, codas.drop_last(), disabled);
        assert forall|x: Seq<char>|
            #[trigger] model::cvc_inner(init, n, codas, disabled).contains(x) implies !disabled.contains(
            x,
        ) && exists|k: int| 0 <= k < codas.len() && x == init + n + #[trigger] codas[k] by {
            let rest = model::cvc_inner(init, n, codas.drop_last(), disabled);
            if rest.contains(x) {
                let k = choose|k: int|
                    0 <= k < codas.drop_last().len() && x == init + n + #[trigger] codas.drop_last()[k];
                assert(codas[k] == codas.drop_last()[k]);
                assert(x == init + n + codas[k]);
            } else {
                assert(x == init + n + codas[codas.len() - 1]);
            }
        }
    }
}

proof fn lemma_cvc_rows_member(
    n: Seq<char>,
    inits: Seq<Seq<char>>,
    codas: Seq<Seq<char>>,
    disabled: Seq<Seq<char>>,
)
    ensures
        forall|x: Seq<char>|
            #[trigger] model::cvc_rows(n, inits, codas, disabled).contains(x) ==> !disabled.contains(
                x,
            ) && exists|i: int, k: int|
                0 <= i < inits.len() && 0 <= k < codas.len() && x == #[trigger] inits[i] + n
                    + #[trigger] codas[k],
    decreases inits.len(),
{
    if inits.len() > 0 {
        lemma_cvc_rows_member(n, inits.drop_last(), codas, disabled);
        lemma_cvc_inner_member(inits.last(), n, codas, disabled);
        assert forall|x: Seq<char>|
            #[trigger] model::cvc_rows(n, inits, codas, disabled).contains(x) implies !disabled.contains(
            x,
        ) && exists|i: int, k: int|
            0 <= i < inits.len() && 0 <= k < codas.len() && x == #[trigger] inits[i] + n
                + #[trigger] codas[k] by {
            let rest = model::cvc_rows(n, inits.drop_last(), codas, disabled);
            let row = model::cvc_inner(inits.last(), n, codas, disabled);
            lemma_concat_contains_split(rest, row, x);
            if rest.contains(x) {
                let (i, k) = choose|i: int, k: int|
                    0 <= i < inits.drop_last().len() && 0 <= k < codas.len() && x
                        == #[trigger] inits.drop_last()[i] + n + #[trigger] codas[k];
                assert(inits[i] == inits.drop_last()[i]);
                assert(x == inits[i] + n + codas[k]);
            } else {
                let k = choose|k: int|
                    0 <= k < codas.len() && x == inits.last() + n + #[trigger] codas[k];
                assert(x == inits[inits.len() - 1] + n + codas[k]);
            }
        }
    }
}

/// The four disjuncts a member of the assembled inventory can take.
pub open spec fn assembled_shape(
    st: SyllableStructure,
    nuclei: Seq<Seq<char>>,
    inits: Seq<Seq<char>>,
    codas: Seq<Seq<char>>,
    disabled: Seq<Seq<char>>,
    w: Seq<char>,
) -> bool {
    nuclei.contains(w) || (model::has_onset(st) && !disabled.contains(w) && exists|i: int, j: int|
        0 <= i < inits.len() && 0 <= j < nuclei.len() && w == #[trigger] inits[i]
            + #[trigger] nuclei[j]) || (model::has_coda(st) && !disabled.contains(w) && exists|
        j: int,
        k: int,
    |
        0 <= j < nuclei.len() && 0 <= k < codas.len() && w == #[trigger] nuclei[j]
            + #[trigger] codas[k]) || (model::has_onset(st) && model::has_coda(st)
        && !disabled.contains(w) && exists|i: int, j: int, k: int|
        0 <= i < inits.len() && 0 <= j < nuclei.len() && 0 <= k < codas.len() && w
            == #[trigger] inits[i] + #[trigger] nuclei[j] + #[trigger] codas[k])
}

/// LAW: every assembled syllable is a bare nucleus, or — only where the
/// structure asks for that shape — an onset-legal cluster before a
/// nucleus, a nucleus before a coda-legal cluster, or all three in that
/// order; every shape but the bare nucleus is outside the disabled
/// list. With structure `VC` no emitted syllable carries an onset
/// segment; with `CVC` every three-segment syllable decomposes into
/// members of the filtered sets.
pub proof fn lemma_assemble_shapes(
    st: SyllableStructure,
    nuclei: Seq<Seq<char>>,
    inits: Seq<Seq<char>>,
    codas: Seq<Seq<char>>,
    disabled: Seq<Seq<char>>,
)
    ensures
        forall|w: Seq<char>|
            #[trigger] model::assemble(st, nuclei, inits, codas, disabled).contains(w)
                ==> assembled_shape(st, nuclei, inits, codas, disabled, w),
    decreases nuclei.len(),
{
    if nuclei.len() > 0 {
        lemma_assemble_shapes(st, nuclei.drop_last(), inits, codas, disabled);
        let n = nuclei.last();
        lemma_onset_row_member(n, inits, disabled);
        lemma_coda_row_member(n, codas, disabled);
        lemma_cvc_rows_member(n, inits, codas, disabled);
        let bare = seq![n];
        let a = if model::has_onset(st) {
            model::onset_row(n, inits, disabled)
        } else {
            Seq::empty()
        };
        let b = if model::has_coda(st) {
            model::coda_row(n, codas, disabled)
        } else {
            Seq::empty()
        };
        let c = if model::has_onset(st) && model::has_coda(st) {
            model::cvc_rows(n, inits, codas, disabled)
        } else {
            Seq::empty()
        };
        assert forall|w: Seq<char>|
            #[trigger] model::assemble(st, nuclei, inits, codas, disabled).contains(w) implies
            assembled_shape(st, nuclei, inits, codas, disabled, w) by {
            let prev = model::assemble(st, nuclei.drop_last(), inits, codas, disabled);
            let block = bare + a + b + c;
            lemma_concat_contains_split(prev, block, w);
            if prev.contains(w) {
                assert(assembled_shape(st, nuclei.drop_last(), inits, codas, disabled, w));
                if nuclei.drop_last().contains(w) {
                    let j = choose|j: int|
                        0 <= j < nuclei.drop_last().len() && nuclei.drop_last()[j] == w;
                    assert(nuclei[j] == w);
                    assert(nuclei.contains(w));
                } else {
                    assert forall|j: int| 0 <= j < nuclei.drop_last().len() implies
                        #[trigger] nuclei.drop_last()[j] == nuclei[j] by {}
                }
            } else {
                lemma_concat_contains_split(bare + a + b, c, w);
                if (bare + a + b).contains(w) {
                    lemma_concat_contains_split(bare + a, b, w);
                    if (bare + a).contains(w) {
                        lemma_concat_contains_split(bare, a, w);
                        if bare.contains(w) {
                            assert(w == nuclei[nuclei.len() - 1]);
                            assert(nuclei.contains(w));
                        } else {
                            assert(model::has_onset(st));
                            let i = choose|i: int|
                                0 <= i < inits.len() && w == #[trigger] inits[i] + n;
                            assert(w == inits[i] + nuclei[nuclei.len() - 1]);
                        }
                    } else {
                        assert(model::has_coda(st));
                        let k = choose|k: int|
                            0 <= k < codas.len() && w == n + #[trigger] codas[k];
                        assert(w == nuclei[nuclei.len() - 1] + codas[k]);
                    }
                } else {
                    assert(model::has_onset(st) && model::has_coda(st));
                    let (i, k) = choose|i: int, k: int|
                        0 <= i < inits.len() && 0 <= k < codas.len() && w == #[trigger] inits[i] + n
                            + #[trigger] codas[k];
                    assert(w == inits[i] + nuclei[nuclei.len() - 1] + codas[k]);
                }
            }
        }
    }
}

/// LAW: with structure `VC` every assembled syllable is a bare nucleus
/// or a nucleus followed by a coda-legal cluster — none carries an
/// onset segment.
pub proof fn lemma_vc_structure(
    nuclei: Seq<Seq<char>>,
    inits: Seq<Seq<char>>,
    codas: Seq<Seq<char>>,
    disabled: Seq<Seq<char>>,
)
    ensures
        forall|w: Seq<char>|
            #[trigger] model::assemble(SyllableStructure::VC, nuclei, inits, codas, disabled).contains(
                w,
            ) ==> nuclei.contains(w) || (!disabled.contains(w) && exists|j: int, k: int|
                0 <= j < nuclei.len() && 0 <= k < codas.len() && w == #[trigger] nuclei[j]
                    + #[trigger] codas[k]),
{
    lemma_assemble_shapes(SyllableStructure::VC, nuclei, inits, codas, disabled);
    assert(!model::has_onset(SyllableStructure::VC));
}

} // verus!
