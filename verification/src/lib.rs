//! A phoneme-level syllable inventory generator for constructed-language
//! design: given vowel and consonant alphabets and a set of structural
//! rules, it derives diphthongs, glides and consonant clusters, filters
//! them by position, and assembles the exhaustive ordered sequence of
//! syllable strings those rules imply.

use vstd::prelude::*;

pub mod laws;
pub mod model;
pub mod settings;
pub mod syllable;

pub use settings::ConfigError;
pub use settings::ConsonantCluster;
pub use settings::ConsonantClusterLength;
pub use settings::Diphthongs;
pub use settings::Glides;
pub use settings::SyllableFormat;
pub use settings::SyllableStructure;
pub use settings::WriteOption;
pub use syllable::SyllableBuilder;
pub use syllable::SyllableHandler;

verus! {

broadcast use crate::model::lemma_views_push, crate::model::lemma_views_take, crate::model::lemma_views_concat;

/// The onset consonants of the fixed sample inventory.
pub open spec fn sample_init_consonants() -> Seq<Seq<char>> {
    seq![
        "p"@, "b"@, "t"@, "d"@, "k"@, "g"@, "m"@, "n"@, "s"@, "z"@,
        "ch"@, "sh"@, "f"@, "h"@, "l"@, "x"@, "kl"@, "shm"@, "fn"@, "ng"@,
    ]
}

/// The nucleus values of the fixed sample inventory: vowels and
/// diphthongs, then their "y"- and "w"-prefixed glide variants.
pub open spec fn sample_vowels() -> Seq<Seq<char>> {
    seq![
        "i"@, "eu"@, "u"@, "e"@, "o"@, "ae"@, "eo"@, "a"@, "ai"@, "ao"@, "oa"@, "oi"@,
        "yi"@, "yeu"@, "yu"@, "ye"@, "yo"@, "yae"@, "yeo"@, "ya"@, "yai"@, "yao"@, "yoa"@, "yoi"@,
        "wi"@, "weu"@, "wu"@, "we"@, "wo"@, "wae"@, "weo"@, "wa"@, "wai"@, "wao"@, "woa"@, "woi"@,
    ]
}

/// The coda consonants of the fixed sample inventory.
pub open spec fn sample_coda_consonants() -> Seq<Seq<char>> {
    seq![
        "ng"@, "m"@, "n"@, "s"@, "b"@, "g"@, "d"@,
        "bs"@, "l"@, "lb"@, "lg"@, "ld"@, "lm"@,
    ]
}

/// Appends the plain cross product of `xs` and `ys` to `out`, row by
/// row: exactly `cross2`.
fn append_cross2(out: &mut Vec<String>, xs: &Vec<String>, ys: &Vec<String>)
    ensures
        model::views(final(out)@) == model::views(old(out)@) + model::cross2(
            model::views(xs@),
            model::views(ys@),
        ),
{
    let ghost out0 = model::views(out@);
    let ghost xv = model::views(xs@);
    let ghost yv = model::views(ys@);
    let mut i: usize = 0;
    while i < xs.len()
        invariant
            i <= xs.len(),
            xv == model::views(xs@),
            yv == model::views(ys@),
            model::views(out@) == out0 + model::cross2(xv.take(i as int), yv),
        decreases xs.len() - i,
    {
        let x = &xs[i];
        let mut j: usize = 0;
        while j < ys.len()
            invariant
                j <= ys.len(),
                i < xs.len(),
                xv == model::views(xs@),
                yv == model::views(ys@),
                x@ == xv[i as int],
                model::views(out@) == out0 + model::cross2(xv.take(i as int), yv) + model::row2(
                    xv[i as int],
                    yv.take(j as int),
                ),
            decreases ys.len() - j,
        {
            let mut word = x.as_str().to_owned();
            word.append(ys[j].as_str());
            out.push(word);
            proof {
                model::lemma_take_succ(yv, j as int);
                assert(yv.take(j as int + 1).drop_last() =~= yv.take(j as int));
                assert(model::views(out@) =~= out0 + model::cross2(xv.take(i as int), yv)
                    + model::row2(xv[i as int], yv.take(j as int + 1)));
            }
            j += 1;
        }
        proof {
            assert(yv.take(ys@.len() as int) =~= yv);
            model::lemma_take_succ(xv, i as int);
            assert(xv.take(i as int + 1).drop_last() =~= xv.take(i as int));
            assert(model::views(out@) =~= out0 + model::cross2(xv.take(i as int + 1), yv));
        }
        i += 1;
    }
    proof {
        assert(xv.take(xs@.len() as int) =~= xv);
    }
}

/// Appends the plain triple cross product of `xs`, `ys` and `zs` to
/// `out`: exactly `cross3`.
fn append_cross3(out: &mut Vec<String>, xs: &Vec<String>, ys: &Vec<String>, zs: &Vec<String>)
    ensures
        model::views(final(out)@) == model::views(old(out)@) + model::cross3(
            model::views(xs@),
            model::views(ys@),
            model::views(zs@),
        ),
{
    let ghost out0 = model::views(out@);
    let ghost xv = model::views(xs@);
    let ghost yv = model::views(ys@);
    let ghost zv = model::views(zs@);
    let mut i: usize = 0;
    while i < xs.len()
        invariant
            i <= xs.len(),
            xv == model::views(xs@),
            yv == model::views(ys@),
            zv == model::views(zs@),
            model::views(out@) == out0 + model::cross3(xv.take(i as int), yv, zv),
        decreases xs.len() - i,
    {
        let x = &xs[i];
        let mut j: usize = 0;
        while j < ys.len()
            invariant
                j <= ys.len(),
                i < xs.len(),
                xv == model::views(xs@),
                yv == model::views(ys@),
                zv == model::views(zs@),
                x@ == xv[i as int],
                model::views(out@) == out0 + model::cross3(xv.take(i as int), yv, zv)
                    + model::row3(xv[i as int], yv.take(j as int), zv),
            decreases ys.len() - j,
        {
            let y = &ys[j];
            let mut k: usize = 0;
            while k < zs.len()
                invariant
                    k <= zs.len(),
                    j < ys.len(),
                    i < xs.len(),
                    xv == model::views(xs@),
                    yv == model::views(ys@),
                    zv == model::views(zs@),
                    x@ == xv[i as int],
                    y@ == yv[j as int],
                    model::views(out@) == out0 + model::cross3(xv.take(i as int), yv, zv)
                        + model::row3(xv[i as int], yv.take(j as int), zv) + model::row2(
                        xv[i as int] + yv[j as int],
                        zv.take(k as int),
                    ),
                decreases zs.len() - k,
            {
                let mut word = x.as_str().to_owned();
                word.append(y.as_str());
                word.append(zs[k].as_str());
                out.push(word);
                proof {
                    model::lemma_take_succ(zv, k as int);
                    assert(zv.take(k as int + 1).drop_last() =~= zv.take(k as int));
                    assert(model::views(out@) =~= out0 + model::cross3(xv.take(i as int), yv, zv)
                        + model::row3(xv[i as int], yv.take(j as int), zv) + model::row2(
                        xv[i as int] + yv[j as int],
                        zv.take(k as int + 1),
                    ));
                }
                k += 1;
            }
            proof {
                assert(zv.take(zs@.len() as int) =~= zv);
                model::lemma_take_succ(yv, j as int);
                assert(yv.take(j as int + 1).drop_last() =~= yv.take(j as int));
                assert(model::views(out@) =~= out0 + model::cross3(xv.take(i as int), yv, zv)
                    + model::row3(xv[i as int], yv.take(j as int + 1), zv));
            }
            j += 1;
        }
        proof {
            assert(yv.take(ys@.len() as int) =~= yv);
            model::lemma_take_succ(xv, i as int);
            assert(xv.take(i as int + 1).drop_last() =~= xv.take(i as int));
            assert(model::views(out@) =~= out0 + model::cross3(xv.take(i as int + 1), yv, zv));
        }
        i += 1;
    }
    proof {
        assert(xv.take(xs@.len() as int) =~= xv);
    }
}

/// The onset consonants of the fixed sample inventory, as strings.
fn sample_init_consonant_list() -> (r: Vec<String>)
    ensures
        model::views(r@) == sample_init_consonants(),
{
    let mut v: Vec<String> = Vec::new();
    v.push("p".to_owned());
    v.push("b".to_owned());
    v.push("t".to_owned());
    v.push("d".to_owned());
    v.push("k".to_owned());
    v.push("g".to_owned());
    v.push("m".to_owned());
    v.push("n".to_owned());
    v.push("s".to_owned());
    v.push("z".to_owned());
    v.push("ch".to_owned());
    v.push("sh".to_owned());
    v.push("f".to_owned());
    v.push("h".to_owned());
    v.push("l".to_owned());
    v.push("x".to_owned());
    v.push("kl".to_owned());
    v.push("shm".to_owned());
    v.push("fn".to_owned());
    v.push("ng".to_owned());
    proof {
        assert(model::views(v@) =~= sample_init_consonants());
    }
    v
}

/// The nucleus values of the fixed sample inventory, as strings.
fn sample_vowel_list() -> (r: Vec<String>)
    ensures
        model::views(r@) == sample_vowels(),
{
    let mut v: Vec<String> = Vec::new();
    v.push("i".to_owned());
    v.push("eu".to_owned());
    v.push("u".to_owned());
    v.push("e".to_owned());
    v.push("o".to_owned());
    v.push("ae".to_owned());
    v.push("eo".to_owned());
    v.push("a".to_owned());
    v.push("ai".to_owned());
    v.push("ao".to_owned());
    v.push("oa".to_owned());
    v.push("oi".to_owned());
    v.push("yi".to_owned());
    v.push("yeu".to_owned());
    v.push("yu".to_owned());
    v.push("ye".to_owned());
    v.push("yo".to_owned());
    v.push("yae".to_owned());
    v.push("yeo".to_owned());
    v.push("ya".to_owned());
    v.push("yai".to_owned());
    v.push("yao".to_owned());
    v.push("yoa".to_owned());
    v.push("yoi".to_owned());
    v.push("wi".to_owned());
    v.push("weu".to_owned());
    v.push("wu".to_owned());
    v.push("we".to_owned());
    v.push("wo".to_owned());
    v.push("wae".to_owned());
    v.push("weo".to_owned());
    v.push("wa".to_owned());
    v.push("wai".to_owned());
    v.push("wao".to_owned());
    v.push("woa".to_owned());
    v.push("woi".to_owned());
    proof {
        assert(model::views(v@) =~= sample_vowels());
    }
    v
}

/// The coda consonants of the fixed sample inventory, as strings.
fn sample_coda_consonant_list() -> (r: Vec<String>)
    ensures
        model::views(r@) == sample_coda_consonants(),
{
    let mut v: Vec<String> = Vec::new();
    v.push("ng".to_owned());
    v.push("m".to_owned());
    v.push("n".to_owned());
    v.push("s".to_owned());
    v.push("b".to_owned());
    v.push("g".to_owned());
    v.push("d".to_owned());
    v.push("bs".to_owned());
    v.push("l".to_owned());
    v.push("lb".to_owned());
    v.push("lg".to_owned());
    v.push("ld".to_owned());
    v.push("lm".to_owned());
    proof {
        assert(model::views(v@) =~= sample_coda_consonants());
    }
    v
}

/// Generates the fixed sample inventory: every onset+nucleus string,
/// then every nucleus+coda string, then every onset+nucleus+coda
/// string, each cross product row by row in list order.
pub fn create_all_syllables() -> (r: Vec<String>)
    ensures
        model::views(r@) == model::cross2(sample_init_consonants(), sample_vowels())
            + model::cross2(sample_vowels(), sample_coda_consonants()) + model::cross3(
            sample_init_consonants(),
            sample_vowels(),
            sample_coda_consonants(),
        ),
{
    let init_consonants = sample_init_consonant_list();
    let vowels = sample_vowel_list();
    let coda_consonants = sample_coda_consonant_list();
    let mut all_syllables: Vec<String> = Vec::new();
    append_cross2(&mut all_syllables, &init_consonants, &vowels);
    append_cross2(&mut all_syllables, &vowels, &coda_consonants);
    append_cross3(&mut all_syllables, &init_consonants, &vowels, &coda_consonants);
    proof {
        assert(model::views(all_syllables@) =~= model::cross2(
            sample_init_consonants(),
            sample_vowels(),
        ) + model::cross2(sample_vowels(), sample_coda_consonants()) + model::cross3(
            sample_init_consonants(),
            sample_vowels(),
            sample_coda_consonants(),
        ));
    }
    all_syllables
}

} // verus!
