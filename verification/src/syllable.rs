//! The canonical, settings-driven builder: data and modes are supplied
//! through setup calls, the expansion stages derive diphthongs, glides
//! and clusters in dependency order, the positional filter partitions
//! the cluster pool, and assembly produces the immutable ordered
//! inventory.

use vstd::prelude::*;
use vstd::string::StringExecFns;

use crate::model;
use crate::settings::ConfigError;
use crate::settings::ConsonantCluster;
use crate::settings::ConsonantClusterLength;
use crate::settings::Diphthongs;
use crate::settings::Glides;
use crate::settings::SyllableStructure;

verus! {

broadcast use crate::model::lemma_views_push, crate::model::lemma_views_take, crate::model::lemma_views_concat;

// ---------------------------------------------------------------------
// String and list helpers
// ---------------------------------------------------------------------

/// The concatenation `a + b` as a fresh string.
fn concat2(a: &str, b: &str) -> (r: String)
    ensures
        r@ == a@ + b@,
{
    let mut s = a.to_owned();
    s.append(b);
    s
}

/// The concatenation `a + b + c` as a fresh string.
fn concat3(a: &str, b: &str, c: &str) -> (r: String)
    ensures
        r@ == a@ + b@ + c@,
{
    let mut s = a.to_owned();
    s.append(b);
    s.append(c);
    s
}

/// Whether `s` occurs in `list`, by exact string equality.
fn contains_string(list: &Vec<String>, s: &String) -> (r: bool)
    ensures
        r == model::views(list@).contains(s@),
{
    let mut i: usize = 0;
    while i < list.len()
        invariant
            i <= list.len(),
            forall|k: int| 0 <= k < i ==> model::views(list@)[k] != s@,
        decreases list.len() - i,
    {
        if list[i] == *s {
            proof {
                assert(model::views(list@)[i as int] == s@);
            }
            return true;
        }
        i += 1;
    }
    false
}

// ---------------------------------------------------------------------
// The builder and its model
// ---------------------------------------------------------------------

/// The abstract state of a builder: its modes, and each of its string
/// lists as a sequence of character sequences. Every contract of the
/// builder speaks of this model.
pub ghost struct BuilderModel {
    pub syllable_structure: SyllableStructure,
    pub diphthong_settings: Diphthongs,
    pub glide_settings: Glides,
    pub consonant_cluster_settings: ConsonantCluster,
    pub consonant_cluster_length: ConsonantClusterLength,
    pub disabled_combinations: Seq<Seq<char>>,
    pub vowels: Seq<Seq<char>>,
    pub diphthongs: Seq<Seq<char>>,
    pub disabled_diphthongs: Seq<Seq<char>>,
    pub consonants: Seq<Seq<char>>,
    pub consonant_cluster: Seq<Seq<char>>,
    pub disabled_consonant_cluster: Seq<Seq<char>>,
    pub disabled_init_cluster: Seq<Seq<char>>,
    pub disabled_coda_cluster: Seq<Seq<char>>,
    pub init_cluster: Seq<Seq<char>>,
    pub nucleus: Seq<Seq<char>>,
    pub coda_cluster: Seq<Seq<char>>,
}

/// Accumulates the configuration and data of one inventory, stage by
/// stage: modes and data first, then the derivation stages in
/// dependency order, then assembly. A stage that is asked to run under
/// a mode it does not serve, or without the data its mode needs, fails
/// with a `ConfigError` and leaves the builder unchanged.
pub struct SyllableBuilder {
    syllable_structure: SyllableStructure,
    diphthong_settings: Diphthongs,
    glide_settings: Glides,
    consonant_cluster_settings: ConsonantCluster,
    consonant_cluster_length: ConsonantClusterLength,
    disabled_combinations: Vec<String>,
    vowels: Vec<String>,
    diphthongs: Vec<String>,
    disabled_diphthongs: Vec<String>,
    consonants: Vec<String>,
    consonant_cluster: Vec<String>,
    disabled_consonant_cluster: Vec<String>,
    disabled_init_cluster: Vec<String>,
    disabled_coda_cluster: Vec<String>,
    init_cluster: Vec<String>,
    nucleus: Vec<String>,
    coda_cluster: Vec<String>,
}

impl View for SyllableBuilder {
    type V = BuilderModel;

    closed spec fn view(&self) -> BuilderModel {
        BuilderModel {
            syllable_structure: self.syllable_structure,
            diphthong_settings: self.diphthong_settings,
            glide_settings: self.glide_settings,
            consonant_cluster_settings: self.consonant_cluster_settings,
            consonant_cluster_length: self.consonant_cluster_length,
            disabled_combinations: model::views(self.disabled_combinations@),
            vowels: model::views(self.vowels@),
            diphthongs: model::views(self.diphthongs@),
            disabled_diphthongs: model::views(self.disabled_diphthongs@),
            consonants: model::views(self.consonants@),
            consonant_cluster: model::views(self.consonant_cluster@),
            disabled_consonant_cluster: model::views(self.disabled_consonant_cluster@),
            disabled_init_cluster: model::views(self.disabled_init_cluster@),
            disabled_coda_cluster: model::views(self.disabled_coda_cluster@),
            init_cluster: model::views(self.init_cluster@),
            nucleus: model::views(self.nucleus@),
            coda_cluster: model::views(self.coda_cluster@),
        }
    }
}

impl SyllableBuilder {
    /// A builder with the default modes and no data: structure `All`,
    /// diphthongs `All`, glides `All`, clusters `All` of length `CC`,
    /// every list empty.
    pub fn new() -> (r: SyllableBuilder)
        ensures
            r@ == (BuilderModel {
                syllable_structure: SyllableStructure::All,
                diphthong_settings: Diphthongs::All,
                glide_settings: Glides::All,
                consonant_cluster_settings: ConsonantCluster::All,
                consonant_cluster_length: ConsonantClusterLength::CC,
                disabled_combinations: Seq::empty(),
                vowels: Seq::empty(),
                diphthongs: Seq::empty(),
                disabled_diphthongs: Seq::empty(),
                consonants: Seq::empty(),
                consonant_cluster: Seq::empty(),
                disabled_consonant_cluster: Seq::empty(),
                disabled_init_cluster: Seq::empty(),
                disabled_coda_cluster: Seq::empty(),
                init_cluster: Seq::empty(),
                nucleus: Seq::empty(),
                coda_cluster: Seq::empty(),
            }),
    {
        let r = SyllableBuilder {
            syllable_structure: SyllableStructure::All,
            diphthong_settings: Diphthongs::All,
            glide_settings: Glides::All,
            consonant_cluster_settings: ConsonantCluster::All,
            consonant_cluster_length: ConsonantClusterLength::CC,
            disabled_combinations: Vec::new(),
            vowels: Vec::new(),
            diphthongs: Vec::new(),
            disabled_diphthongs: Vec::new(),
            consonants: Vec::new(),
            consonant_cluster: Vec::new(),
            disabled_consonant_cluster: Vec::new(),
            disabled_init_cluster: Vec::new(),
            disabled_coda_cluster: Vec::new(),
            init_cluster: Vec::new(),
            nucleus: Vec::new(),
            coda_cluster: Vec::new(),
        };
        proof {
            assert(model::views(r.vowels@) =~= Seq::<Seq<char>>::empty());
            assert(model::views(r.diphthongs@) =~= Seq::<Seq<char>>::empty());
            assert(model::views(r.disabled_diphthongs@) =~= Seq::<Seq<char>>::empty());
            assert(model::views(r.consonants@) =~= Seq::<Seq<char>>::empty());
            assert(model::views(r.consonant_cluster@) =~= Seq::<Seq<char>>::empty());
            assert(model::views(r.disabled_consonant_cluster@) =~= Seq::<Seq<char>>::empty());
            assert(model::views(r.disabled_init_cluster@) =~= Seq::<Seq<char>>::empty());
            assert(model::views(r.disabled_coda_cluster@) =~= Seq::<Seq<char>>::empty());
            assert(model::views(r.disabled_combinations@) =~= Seq::<Seq<char>>::empty());
            assert(model::views(r.init_cluster@) =~= Seq::<Seq<char>>::empty());
            assert(model::views(r.nucleus@) =~= Seq::<Seq<char>>::empty());
            assert(model::views(r.coda_cluster@) =~= Seq::<Seq<char>>::empty());
        }
        r
    }

    /// Selects which syllable shapes the assembler emits.
    pub fn with_syllable_structure_settings(&mut self, syllable_structure: SyllableStructure)
        ensures
            final(self)@ == (BuilderModel { syllable_structure, ..old(self)@ }),
    {
        self.syllable_structure = syllable_structure;
    }

    /// Selects the diphthong derivation mode.
    pub fn with_diphthong_settings(&mut self, diphthong_settings: Diphthongs)
        ensures
            final(self)@ == (BuilderModel { diphthong_settings, ..old(self)@ }),
    {
        self.diphthong_settings = diphthong_settings;
    }

    /// Selects the glide derivation mode.
    pub fn with_glide_settings(&mut self, glide_settings: Glides)
        ensures
            final(self)@ == (BuilderModel { glide_settings, ..old(self)@ }),
    {
        self.glide_settings = glide_settings;
    }

    /// Selects the cluster derivation mode and the maximum cluster
    /// length it derives.
    pub fn with_consonant_cluster_settings(
        &mut self,
        consonant_cluster_settings: ConsonantCluster,
        consonant_cluster_length: ConsonantClusterLength,
    )
        ensures
            final(self)@ == (BuilderModel {
                consonant_cluster_settings,
                consonant_cluster_length,
                ..old(self)@
            }),
    {
        self.consonant_cluster_settings = consonant_cluster_settings;
        self.consonant_cluster_length = consonant_cluster_length;
    }

    /// Supplies the diphthong exclusion list for mode `DisableGiven`;
    /// under any other diphthong mode the list is refused.
    pub fn with_disabled_diphthongs(&mut self, disabled_diphthongs: Vec<String>) -> (r: Result<
        (),
        ConfigError,
    >)
        ensures
            old(self)@.diphthong_settings == Diphthongs::DisableGiven ==> r == Ok::<
                (),
                ConfigError,
            >(()) && final(self)@ == (BuilderModel {
                disabled_diphthongs: model::views(disabled_diphthongs@),
                ..old(self)@
            }),
            old(self)@.diphthong_settings != Diphthongs::DisableGiven ==> r == Err::<
                (),
                ConfigError,
            >(ConfigError::DisabledDiphthongsNotExpected) && final(self)@ == old(self)@,
    {
        match self.diphthong_settings {
            Diphthongs::DisableGiven => {
                self.disabled_diphthongs = disabled_diphthongs;
                Ok(())
            },
            _ => Err(ConfigError::DisabledDiphthongsNotExpected),
        }
    }

    /// Supplies the onset exclusion list: clusters that may not open a
    /// syllable. Matched by exact string equality at the positional
    /// filtering stage.
    pub fn with_disabled_init_cluster(&mut self, disabled_init_cluster: Vec<String>)
        ensures
            final(self)@ == (BuilderModel {
                disabled_init_cluster: model::views(disabled_init_cluster@),
                ..old(self)@
            }),
    {
        self.disabled_init_cluster = disabled_init_cluster;
    }

    /// Supplies the coda exclusion list: clusters that may not close a
    /// syllable. Independent of the onset exclusions.
    pub fn with_disabled_coda_cluster(&mut self, disabled_coda_cluster: Vec<String>)
        ensures
            final(self)@ == (BuilderModel {
                disabled_coda_cluster: model::views(disabled_coda_cluster@),
                ..old(self)@
            }),
    {
        self.disabled_coda_cluster = disabled_coda_cluster;
    }

    /// Supplies the global exclusion list: fully assembled syllables
    /// that are dropped at assembly, by exact string equality.
    pub fn with_disabled_combinations(&mut self, disabled_combinations: Vec<String>)
        ensures
            final(self)@ == (BuilderModel {
                disabled_combinations: model::views(disabled_combinations@),
                ..old(self)@
            }),
    {
        self.disabled_combinations = disabled_combinations;
    }

    /// Supplies the ordered vowel alphabet.
    pub fn with_vowel_data(&mut self, vowels: Vec<String>)
        ensures
            final(self)@ == (BuilderModel { vowels: model::views(vowels@), ..old(self)@ }),
    {
        self.vowels = vowels;
    }

    /// Supplies the diphthong list for mode `OnlyGiven`, taken verbatim;
    /// under any other diphthong mode the list is refused.
    pub fn with_diphthong_data(&mut self, diphthongs: Vec<String>) -> (r: Result<(), ConfigError>)
        ensures
            old(self)@.diphthong_settings == Diphthongs::OnlyGiven ==> r == Ok::<
                (),
                ConfigError,
            >(()) && final(self)@ == (BuilderModel {
                diphthongs: model::views(diphthongs@),
                ..old(self)@
            }),
            old(self)@.diphthong_settings != Diphthongs::OnlyGiven ==> r == Err::<
                (),
                ConfigError,
            >(ConfigError::DiphthongDataNotExpected) && final(self)@ == old(self)@,
    {
        match self.diphthong_settings {
            Diphthongs::OnlyGiven => {
                self.diphthongs = diphthongs;
                Ok(())
            },
            _ => Err(ConfigError::DiphthongDataNotExpected),
        }
    }

    /// Supplies the ordered consonant alphabet.
    pub fn with_consonant_data(&mut self, consonants: Vec<String>)
        ensures
            final(self)@ == (BuilderModel { consonants: model::views(consonants@), ..old(self)@ }),
    {
        self.consonants = consonants;
    }

    /// Supplies the cluster list for mode `OnlyGiven`, taken verbatim;
    /// under any other cluster mode the list is refused. Single
    /// consonants are always part of the effective pool and need not be
    /// supplied here; a supplied duplicate of one is dropped when the
    /// pool is built.
    pub fn with_consonant_cluster_data(&mut self, consonant_cluster: Vec<String>) -> (r: Result<
        (),
        ConfigError,
    >)
        ensures
            old(self)@.consonant_cluster_settings == ConsonantCluster::OnlyGiven ==> r == Ok::<
                (),
                ConfigError,
            >(()) && final(self)@ == (BuilderModel {
                consonant_cluster: model::views(consonant_cluster@),
                ..old(self)@
            }),
            old(self)@.consonant_cluster_settings != ConsonantCluster::OnlyGiven ==> r == Err::<
                (),
                ConfigError,
            >(ConfigError::ClusterDataNotExpected) && final(self)@ == old(self)@,
    {
        match self.consonant_cluster_settings {
            ConsonantCluster::OnlyGiven => {
                self.consonant_cluster = consonant_cluster;
                Ok(())
            },
            _ => Err(ConfigError::ClusterDataNotExpected),
        }
    }

    /// Derives the diphthongs the diphthong mode asks for and appends
    /// them to the diphthong list. `All` and `NoLong` derive from the
    /// vowels; `DisableGiven` needs its exclusion list first;
    /// `OnlyGiven` derives nothing but needs its data first.
    pub fn create_diphthongs(&mut self) -> (r: Result<(), ConfigError>)
        ensures
            old(self)@.diphthong_settings == Diphthongs::OnlyGiven && old(
                self,
            )@.diphthongs.len() == 0 ==> r == Err::<(), ConfigError>(
                ConfigError::DiphthongDataMissing,
            ) && final(self)@ == old(self)@,
            old(self)@.diphthong_settings == Diphthongs::OnlyGiven && old(
                self,
            )@.diphthongs.len() > 0 ==> r == Ok::<(), ConfigError>(()) && final(self)@ == old(
                self,
            )@,
            old(self)@.diphthong_settings == Diphthongs::DisableGiven && old(
                self,
            )@.disabled_diphthongs.len() == 0 ==> r == Err::<(), ConfigError>(
                ConfigError::DisabledDiphthongsMissing,
            ) && final(self)@ == old(self)@,
            old(self)@.diphthong_settings == Diphthongs::All || old(self)@.diphthong_settings
                == Diphthongs::NoLong || (old(self)@.diphthong_settings == Diphthongs::DisableGiven
                && old(self)@.disabled_diphthongs.len() > 0) ==> r == Ok::<(), ConfigError>(())
                && final(self)@ == (BuilderModel {
                diphthongs: old(self)@.diphthongs + model::diphthong_table(
                    old(self)@.diphthong_settings,
                    old(self)@.vowels,
                    old(self)@.vowels,
                    old(self)@.disabled_diphthongs,
                ),
                ..old(self)@
            }),
    {
        match self.diphthong_settings {
            Diphthongs::OnlyGiven => {
                if self.diphthongs.len() == 0 {
                    Err(ConfigError::DiphthongDataMissing)
                } else {
                    Ok(())
                }
            },
            Diphthongs::DisableGiven => {
                if self.disabled_diphthongs.len() == 0 {
                    Err(ConfigError::DisabledDiphthongsMissing)
                } else {
                    append_pairs(
                        &mut self.diphthongs,
                        Diphthongs::DisableGiven,
                        &self.vowels,
                        &self.vowels,
                        &self.disabled_diphthongs,
                    );
                    Ok(())
                }
            },
            Diphthongs::All => {
                append_pairs(
                    &mut self.diphthongs,
                    Diphthongs::All,
                    &self.vowels,
                    &self.vowels,
                    &self.disabled_diphthongs,
                );
                Ok(())
            },
            Diphthongs::NoLong => {
                append_pairs(
                    &mut self.diphthongs,
                    Diphthongs::NoLong,
                    &self.vowels,
                    &self.vowels,
                    &self.disabled_diphthongs,
                );
                Ok(())
            },
        }
    }

    /// Derives the glide variants the glide mode asks for — of every
    /// vowel first, then of every diphthong derived so far — and
    /// appends them to the diphthong list; glides are not distinguished
    /// from diphthongs downstream.
    pub fn create_glides(&mut self)
        ensures
            final(self)@ == (BuilderModel {
                diphthongs: old(self)@.diphthongs + model::glide_seq(
                    old(self)@.glide_settings,
                    old(self)@.vowels,
                ) + model::glide_seq(old(self)@.glide_settings, old(self)@.diphthongs),
                ..old(self)@
            }),
    {
        let mut glides: Vec<String> = Vec::new();
        append_glides(&mut glides, self.glide_settings, &self.vowels);
        append_glides(&mut glides, self.glide_settings, &self.diphthongs);
        let ghost pre = model::views(self.diphthongs@);
        let mut k: usize = 0;
        while k < glides.len()
            invariant
                k <= glides.len(),
                pre == old(self)@.diphthongs,
                self@ == (BuilderModel {
                    diphthongs: pre + model::views(glides@).take(k as int),
                    ..old(self)@
                }),
            decreases glides.len() - k,
        {
            self.diphthongs.push(glides[k].clone());
            proof {
                model::lemma_take_succ(model::views(glides@), k as int);
                assert(model::views(self.diphthongs@) =~= pre + model::views(glides@).take(
                    k as int + 1,
                ));
            }
            k += 1;
        }
        proof {
            assert(model::views(glides@).take(glides@.len() as int) =~= model::views(glides@));
            assert(pre + model::views(glides@) =~= old(self)@.diphthongs + model::glide_seq(
                old(self)@.glide_settings,
                old(self)@.vowels,
            ) + model::glide_seq(old(self)@.glide_settings, old(self)@.diphthongs));
        }
    }

    /// Derives the consonant clusters the cluster mode asks for, up to
    /// the configured length, and appends them to the cluster list.
    /// `OnlyGiven` bypasses this stage and is refused here;
    /// `DisableGiven` needs its exclusion list first; for `All` and
    /// `NoDouble` the length `Unset` has no generation rule and is
    /// refused. Single consonants are not derived: they join the
    /// effective pool at the positional filtering stage.
    pub fn create_consonant_cluster(&mut self) -> (r: Result<(), ConfigError>)
        ensures
            old(self)@.consonant_cluster_settings == ConsonantCluster::OnlyGiven ==> r == Err::<
                (),
                ConfigError,
            >(ConfigError::ClusterDerivationNotExpected) && final(self)@ == old(self)@,
            (old(self)@.consonant_cluster_settings == ConsonantCluster::All || old(
                self,
            )@.consonant_cluster_settings == ConsonantCluster::NoDouble) && old(
                self,
            )@.consonant_cluster_length == ConsonantClusterLength::Unset ==> r == Err::<
                (),
                ConfigError,
            >(ConfigError::ClusterLengthUnsupported) && final(self)@ == old(self)@,
            old(self)@.consonant_cluster_settings == ConsonantCluster::DisableGiven && old(
                self,
            )@.disabled_consonant_cluster.len() == 0 ==> r == Err::<(), ConfigError>(
                ConfigError::DisabledClustersMissing,
            ) && final(self)@ == old(self)@,
            ((old(self)@.consonant_cluster_settings == ConsonantCluster::All || old(
                self,
            )@.consonant_cluster_settings == ConsonantCluster::NoDouble) && old(
                self,
            )@.consonant_cluster_length != ConsonantClusterLength::Unset) || (old(
                self,
            )@.consonant_cluster_settings == ConsonantCluster::DisableGiven && old(
                self,
            )@.disabled_consonant_cluster.len() > 0) ==> r == Ok::<(), ConfigError>(())
                && final(self)@ == (BuilderModel {
                consonant_cluster: old(self)@.consonant_cluster + model::cluster_table(
                    old(self)@.consonant_cluster_settings,
                    old(self)@.consonants,
                    old(self)@.consonants,
                    old(self)@.disabled_consonant_cluster,
                    model::depth_of(old(self)@.consonant_cluster_length),
                ),
                ..old(self)@
            }),
    {
        let mode = self.consonant_cluster_settings;
        match mode {
            ConsonantCluster::OnlyGiven => {
                return Err(ConfigError::ClusterDerivationNotExpected);
            },
            ConsonantCluster::DisableGiven => {
                if self.disabled_consonant_cluster.len() == 0 {
                    return Err(ConfigError::DisabledClustersMissing);
                }
            },
            _ => {
                match self.consonant_cluster_length {
                    ConsonantClusterLength::Unset => {
                        return Err(ConfigError::ClusterLengthUnsupported);
                    },
                    _ => {},
                }
            },
        }
        let depth: u8 = match self.consonant_cluster_length {
            ConsonantClusterLength::C => 0,
            ConsonantClusterLength::CC => 1,
            ConsonantClusterLength::CCC => 2,
            ConsonantClusterLength::CCCC => 3,
            ConsonantClusterLength::Unset => 0,
        };
        proof {
            assert(depth as nat == model::depth_of(old(self)@.consonant_cluster_length));
        }
        let mut i: usize = 0;
        while i < self.consonants.len()
            invariant
                i <= self.consonants.len(),
                depth as nat == model::depth_of(old(self)@.consonant_cluster_length),
                mode == old(self)@.consonant_cluster_settings,
                self@ == (BuilderModel {
                    consonant_cluster: old(self)@.consonant_cluster + model::cluster_table(
                        mode,
                        old(self)@.consonants.take(i as int),
                        old(self)@.consonants,
                        old(self)@.disabled_consonant_cluster,
                        depth as nat,
                    ),
                    ..old(self)@
                }),
            decreases self.consonants.len() - i,
        {
            let c = &self.consonants[i];
            let ghost cv = old(self)@.consonants;
            append_clusters(
                &mut self.consonant_cluster,
                mode,
                &self.consonants,
                c,
                c,
                &self.disabled_consonant_cluster,
                depth,
            );
            proof {
                model::lemma_take_succ(cv, i as int);
                assert(cv.take(i as int + 1).drop_last() =~= cv.take(i as int));
                assert(model::views(self.consonant_cluster@) =~= old(self)@.consonant_cluster
                    + model::cluster_table(
                    mode,
                    cv.take(i as int + 1),
                    cv,
                    old(self)@.disabled_consonant_cluster,
                    depth as nat,
                ));
            }
            i += 1;
        }
        proof {
            assert(old(self)@.consonants.take(old(self)@.consonants.len() as int) =~= old(
                self,
            )@.consonants);
        }
        Ok(())
    }

    /// Collects the nucleus values: every vowel, then every diphthong
    /// and glide derived or supplied so far, appended to the nucleus
    /// list in that order.
    pub fn create_nucleus(&mut self)
        ensures
            final(self)@ == (BuilderModel {
                nucleus: old(self)@.nucleus + old(self)@.vowels + old(self)@.diphthongs,
                ..old(self)@
            }),
    {
        append_list(&mut self.nucleus, &self.vowels);
        append_list(&mut self.nucleus, &self.diphthongs);
        proof {
            assert(model::views(self.nucleus@) =~= old(self)@.nucleus + old(self)@.vowels + old(
                self,
            )@.diphthongs);
        }
    }

    /// Builds the onset-legal cluster set: the effective pool — the
    /// bare consonants, always, then the clusters that duplicate no
    /// consonant — minus the onset exclusion list, appended to the
    /// onset list.
    pub fn create_init_cluster(&mut self)
        ensures
            final(self)@ == (BuilderModel {
                init_cluster: old(self)@.init_cluster + model::positional_set(
                    old(self)@.consonants,
                    old(self)@.consonant_cluster,
                    old(self)@.disabled_init_cluster,
                ),
                ..old(self)@
            }),
    {
        append_filtered(&mut self.init_cluster, &self.consonants, &self.disabled_init_cluster);
        append_filtered2(
            &mut self.init_cluster,
            &self.consonant_cluster,
            &self.consonants,
            &self.disabled_init_cluster,
        );
        proof {
            model::lemma_positional_set_split(
                old(self)@.consonants,
                old(self)@.consonant_cluster,
                old(self)@.disabled_init_cluster,
            );
            assert(model::views(self.init_cluster@) =~= old(self)@.init_cluster
                + model::positional_set(
                old(self)@.consonants,
                old(self)@.consonant_cluster,
                old(self)@.disabled_init_cluster,
            ));
        }
    }

    /// Builds the coda-legal cluster set: the effective pool minus the
    /// coda exclusion list, appended to the coda list; independent of
    /// the onset exclusions.
    pub fn create_coda_cluster(&mut self)
        ensures
            final(self)@ == (BuilderModel {
                coda_cluster: old(self)@.coda_cluster + model::positional_set(
                    old(self)@.consonants,
                    old(self)@.consonant_cluster,
                    old(self)@.disabled_coda_cluster,
                ),
                ..old(self)@
            }),
    {
        append_filtered(&mut self.coda_cluster, &self.consonants, &self.disabled_coda_cluster);
        append_filtered2(
            &mut self.coda_cluster,
            &self.consonant_cluster,
            &self.consonants,
            &self.disabled_coda_cluster,
        );
        proof {
            model::lemma_positional_set_split(
                old(self)@.consonants,
                old(self)@.consonant_cluster,
                old(self)@.disabled_coda_cluster,
            );
            assert(model::views(self.coda_cluster@) =~= old(self)@.coda_cluster
                + model::positional_set(
                old(self)@.consonants,
                old(self)@.consonant_cluster,
                old(self)@.disabled_coda_cluster,
            ));
        }
    }

    /// Supplies the cluster exclusion list for mode `DisableGiven`;
    /// under any other cluster mode the list is refused.
    pub fn with_disabled_consonant_cluster(
        &mut self,
        disabled_consonant_cluster: Vec<String>,
    ) -> (r: Result<(), ConfigError>)
        ensures
            old(self)@.consonant_cluster_settings == ConsonantCluster::DisableGiven ==> r == Ok::<
                (),
                ConfigError,
            >(()) && final(self)@ == (BuilderModel {
                disabled_consonant_cluster: model::views(disabled_consonant_cluster@),
                ..old(self)@
            }),
            old(self)@.consonant_cluster_settings != ConsonantCluster::DisableGiven ==> r == Err::<
                (),
                ConfigError,
            >(ConfigError::DisabledClustersNotExpected) && final(self)@ == old(self)@,
    {
        match self.consonant_cluster_settings {
            ConsonantCluster::DisableGiven => {
                self.disabled_consonant_cluster = disabled_consonant_cluster;
                Ok(())
            },
            _ => Err(ConfigError::DisabledClustersNotExpected),
        }
    }
}

// ---------------------------------------------------------------------
// Stage workers
// ---------------------------------------------------------------------

/// Appends one mode-filtered cross product of `outer` and `inner` to
/// `out`, row by row: exactly `diphthong_table`.
fn append_pairs(
    out: &mut Vec<String>,
    mode: Diphthongs,
    outer: &Vec<String>,
    inner: &Vec<String>,
    disabled: &Vec<String>,
)
    ensures
        model::views(final(out)@) == model::views(old(out)@) + model::diphthong_table(
            mode,
            model::views(outer@),
            model::views(inner@),
            model::views(disabled@),
        ),
{
    let ghost out0 = model::views(out@);
    let ghost ov = model::views(outer@);
    let ghost iv = model::views(inner@);
    let ghost dv = model::views(disabled@);
    let mut i: usize = 0;
    while i < outer.len()
        invariant
            i <= outer.len(),
            ov == model::views(outer@),
            iv == model::views(inner@),
            dv == model::views(disabled@),
            model::views(out@) == out0 + model::diphthong_table(mode, ov.take(i as int), iv, dv),
        decreases outer.len() - i,
    {
        let v1 = &outer[i];
        let mut j: usize = 0;
        while j < inner.len()
            invariant
                j <= inner.len(),
                i < outer.len(),
                ov == model::views(outer@),
                iv == model::views(inner@),
                dv == model::views(disabled@),
                v1@ == ov[i as int],
                model::views(out@) == out0 + model::diphthong_table(mode, ov.take(i as int), iv, dv)
                    + model::diphthong_row(mode, ov[i as int], iv.take(j as int), dv),
            decreases inner.len() - j,
        {
            let word = concat2(v1.as_str(), inner[j].as_str());
            let keep: bool = match mode {
                Diphthongs::All => true,
                Diphthongs::NoLong => !(*v1 == inner[j]),
                Diphthongs::OnlyGiven => false,
                Diphthongs::DisableGiven => !contains_string(disabled, &word),
            };
            proof {
                assert(word@ == ov[i as int] + iv[j as int]);
                assert(keep == model::diphthong_keep(mode, ov[i as int], iv[j as int], dv));
                model::lemma_take_succ(iv, j as int);
                assert(iv.take(j as int + 1).drop_last() =~= iv.take(j as int));
            }
            if keep {
                out.push(word);
                proof {
                    assert(model::views(out@) =~= out0 + model::diphthong_table(
                        mode,
                        ov.take(i as int),
                        iv,
                        dv,
                    ) + model::diphthong_row(mode, ov[i as int], iv.take(j as int + 1), dv));
                }
            } else {
                proof {
                    assert(model::diphthong_row(mode, ov[i as int], iv.take(j as int + 1), dv)
                        == model::diphthong_row(mode, ov[i as int], iv.take(j as int), dv));
                }
            }
            j += 1;
        }
        proof {
            assert(iv.take(inner@.len() as int) =~= iv);
            model::lemma_take_succ(ov, i as int);
            assert(ov.take(i as int + 1).drop_last() =~= ov.take(i as int));
            assert(model::views(out@) =~= out0 + model::diphthong_table(
                mode,
                ov.take(i as int + 1),
                iv,
                dv,
            ));
        }
        i += 1;
    }
    proof {
        assert(ov.take(outer@.len() as int) =~= ov);
    }
}

/// Grows every cluster candidate reachable from the candidate `w`
/// (whose last symbol is `p`) by at most `depth` further symbols of
/// `cs`, and appends the emitted ones to `out`: exactly
/// `cluster_children`.
fn append_clusters(
    out: &mut Vec<String>,
    mode: ConsonantCluster,
    cs: &Vec<String>,
    w: &String,
    p: &String,
    disabled: &Vec<String>,
    depth: u8,
)
    ensures
        model::views(final(out)@) == model::views(old(out)@) + model::cluster_children(
            mode,
            model::views(cs@),
            model::views(cs@),
            w@,
            p@,
            model::views(disabled@),
            depth as nat,
        ),
    decreases depth,
{
    let ghost out0 = model::views(out@);
    let ghost cv = model::views(cs@);
    let ghost dv = model::views(disabled@);
    if depth == 0 {
        proof {
            assert(model::views(out@) =~= out0 + model::cluster_children(
                mode,
                cv,
                cv,
                w@,
                p@,
                dv,
                depth as nat,
            ));
        }
        return ;
    }
    let mut i: usize = 0;
    while i < cs.len()
        invariant
            i <= cs.len(),
            depth >= 1,
            cv == model::views(cs@),
            dv == model::views(disabled@),
            model::views(out@) == out0 + model::cluster_children(
                mode,
                cv.take(i as int),
                cv,
                w@,
                p@,
                dv,
                depth as nat,
            ),
        decreases cs.len() - i,
    {
        let c = &cs[i];
        let extend: bool = match mode {
            ConsonantCluster::All => true,
            ConsonantCluster::NoDouble => !(*p == *c),
            ConsonantCluster::OnlyGiven => false,
            ConsonantCluster::DisableGiven => true,
        };
        proof {
            assert(extend == model::cluster_extend(mode, p@, cv[i as int]));
            model::lemma_take_succ(cv, i as int);
            assert(cv.take(i as int + 1).drop_last() =~= cv.take(i as int));
        }
        if extend {
            let word = concat2(w.as_str(), c.as_str());
            let emit: bool = match mode {
                ConsonantCluster::All => true,
                ConsonantCluster::NoDouble => true,
                ConsonantCluster::OnlyGiven => false,
                ConsonantCluster::DisableGiven => !contains_string(disabled, &word),
            };
            proof {
                assert(word@ == w@ + cv[i as int]);
                assert(emit == model::cluster_emit(mode, word@, dv));
            }
            let ghost mid = model::views(out@);
            if emit {
                out.push(word.clone());
                proof {
                    assert(model::views(out@) =~= mid + seq![word@]);
                }
            } else {
                proof {
                    assert(model::views(out@) =~= mid + Seq::<Seq<char>>::empty());
                }
            }
            let ghost mid2 = model::views(out@);
            append_clusters(out, mode, cs, &word, c, disabled, depth - 1);
            proof {
                let here = (if model::cluster_emit(mode, word@, dv) {
                    seq![word@]
                } else {
                    Seq::<Seq<char>>::empty()
                }) + model::cluster_children(
                    mode,
                    cv,
                    cv,
                    word@,
                    cv[i as int],
                    dv,
                    (depth - 1) as nat,
                );
                assert(model::views(out@) =~= out0 + (model::cluster_children(
                    mode,
                    cv.take(i as int),
                    cv,
                    w@,
                    p@,
                    dv,
                    depth as nat,
                ) + here));
                assert(model::views(out@) =~= out0 + model::cluster_children(
                    mode,
                    cv.take(i as int + 1),
                    cv,
                    w@,
                    p@,
                    dv,
                    depth as nat,
                ));
            }
        } else {
            proof {
                assert(model::cluster_children(mode, cv.take(i as int + 1), cv, w@, p@, dv, depth as nat)
                    =~= model::cluster_children(mode, cv.take(i as int), cv, w@, p@, dv, depth as nat));
            }
        }
        i += 1;
    }
    proof {
        assert(cv.take(cs@.len() as int) =~= cv);
    }
}

/// Appends the glide variants of every element of `items` to `out`:
/// exactly `glide_seq`.
fn append_glides(out: &mut Vec<String>, mode: Glides, items: &Vec<String>)
    ensures
        model::views(final(out)@) == model::views(old(out)@) + model::glide_seq(
            mode,
            model::views(items@),
        ),
{
    let ghost out0 = model::views(out@);
    let ghost itv = model::views(items@);
    let mut i: usize = 0;
    while i < items.len()
        invariant
            i <= items.len(),
            itv == model::views(items@),
            model::views(out@) == out0 + model::glide_seq(mode, itv.take(i as int)),
        decreases items.len() - i,
    {
        let item = &items[i];
        match mode {
            Glides::All => {
                out.push(concat2("y", item.as_str()));
                out.push(concat2("w", item.as_str()));
            },
            Glides::AllOnlyU => {
                out.push(concat2("w", item.as_str()));
            },
            Glides::AllOnlyY => {
                out.push(concat2("y", item.as_str()));
            },
        }
        proof {
            model::lemma_take_succ(itv, i as int);
            assert(itv.take(i as int + 1).drop_last() =~= itv.take(i as int));
            assert(model::views(out@) =~= out0 + model::glide_seq(mode, itv.take(i as int + 1)));
        }
        i += 1;
    }
    proof {
        assert(itv.take(items@.len() as int) =~= itv);
    }
}

/// Appends a copy of every element of `xs` to `out`.
fn append_list(out: &mut Vec<String>, xs: &Vec<String>)
    ensures
        model::views(final(out)@) == model::views(old(out)@) + model::views(xs@),
{
    let ghost out0 = model::views(out@);
    let ghost xv = model::views(xs@);
    let mut i: usize = 0;
    while i < xs.len()
        invariant
            i <= xs.len(),
            xv == model::views(xs@),
            model::views(out@) == out0 + xv.take(i as int),
        decreases xs.len() - i,
    {
        out.push(xs[i].clone());
        proof {
            model::lemma_take_succ(xv, i as int);
            assert(model::views(out@) =~= out0 + xv.take(i as int + 1));
        }
        i += 1;
    }
    proof {
        assert(xv.take(xs@.len() as int) =~= xv);
    }
}

/// Appends to `out` every element of `xs` that is not a member of
/// `excl`: exactly `filter_not_in`.
fn append_filtered(out: &mut Vec<String>, xs: &Vec<String>, excl: &Vec<String>)
    ensures
        model::views(final(out)@) == model::views(old(out)@) + model::filter_not_in(
            model::views(xs@),
            model::views(excl@),
        ),
{
    let ghost out0 = model::views(out@);
    let ghost xv = model::views(xs@);
    let ghost ev = model::views(excl@);
    let mut i: usize = 0;
    while i < xs.len()
        invariant
            i <= xs.len(),
            xv == model::views(xs@),
            ev == model::views(excl@),
            model::views(out@) == out0 + model::filter_not_in(xv.take(i as int), ev),
        decreases xs.len() - i,
    {
        proof {
            model::lemma_take_succ(xv, i as int);
            assert(xv.take(i as int + 1).drop_last() =~= xv.take(i as int));
        }
        if !contains_string(excl, &xs[i]) {
            out.push(xs[i].clone());
            proof {
                assert(model::views(out@) =~= out0 + model::filter_not_in(
                    xv.take(i as int + 1),
                    ev,
                ));
            }
        }
        i += 1;
    }
    proof {
        assert(xv.take(xs@.len() as int) =~= xv);
    }
}

/// Appends to `out` every element of `xs` that is a member of neither
/// `excl1` nor `excl2`: exactly `filter_not_in2`.
fn append_filtered2(out: &mut Vec<String>, xs: &Vec<String>, excl1: &Vec<String>, excl2: &Vec<String>)
    ensures
        model::views(final(out)@) == model::views(old(out)@) + model::filter_not_in2(
            model::views(xs@),
            model::views(excl1@),
            model::views(excl2@),
        ),
{
    let ghost out0 = model::views(out@);
    let ghost xv = model::views(xs@);
    let ghost e1 = model::views(excl1@);
    let ghost e2 = model::views(excl2@);
    let mut i: usize = 0;
    while i < xs.len()
        invariant
            i <= xs.len(),
            xv == model::views(xs@),
            e1 == model::views(excl1@),
            e2 == model::views(excl2@),
            model::views(out@) == out0 + model::filter_not_in2(xv.take(i as int), e1, e2),
        decreases xs.len() - i,
    {
        proof {
            model::lemma_take_succ(xv, i as int);
            assert(xv.take(i as int + 1).drop_last() =~= xv.take(i as int));
        }
        if !contains_string(excl1, &xs[i]) && !contains_string(excl2, &xs[i]) {
            out.push(xs[i].clone());
            proof {
                assert(model::views(out@) =~= out0 + model::filter_not_in2(
                    xv.take(i as int + 1),
                    e1,
                    e2,
                ));
            }
        }
        i += 1;
    }
    proof {
        assert(xv.take(xs@.len() as int) =~= xv);
    }
}

/// Appends the onset shapes of one nucleus to `out`: exactly
/// `onset_row`.
fn append_onset_row(out: &mut Vec<String>, n: &String, inits: &Vec<String>, disabled: &Vec<String>)
    ensures
        model::views(final(out)@) == model::views(old(out)@) + model::onset_row(
            n@,
            model::views(inits@),
            model::views(disabled@),
        ),
{
    let ghost out0 = model::views(out@);
    let ghost iv = model::views(inits@);
    let ghost dv = model::views(disabled@);
    let mut j: usize = 0;
    while j < inits.len()
        invariant
            j <= inits.len(),
            iv == model::views(inits@),
            dv == model::views(disabled@),
            model::views(out@) == out0 + model::onset_row(n@, iv.take(j as int), dv),
        decreases inits.len() - j,
    {
        proof {
            model::lemma_take_succ(iv, j as int);
            assert(iv.take(j as int + 1).drop_last() =~= iv.take(j as int));
        }
        let word = concat2(inits[j].as_str(), n.as_str());
        if !contains_string(disabled, &word) {
            out.push(word);
            proof {
                assert(model::views(out@) =~= out0 + model::onset_row(n@, iv.take(j as int + 1), dv));
            }
        }
        j += 1;
    }
    proof {
        assert(iv.take(inits@.len() as int) =~= iv);
    }
}

/// Appends the coda shapes of one nucleus to `out`: exactly `coda_row`.
fn append_coda_row(out: &mut Vec<String>, n: &String, codas: &Vec<String>, disabled: &Vec<String>)
    ensures
        model::views(final(out)@) == model::views(old(out)@) + model::coda_row(
            n@,
            model::views(codas@),
            model::views(disabled@),
        ),
{
    let ghost out0 = model::views(out@);
    let ghost cv = model::views(codas@);
    let ghost dv = model::views(disabled@);
    let mut j: usize = 0;
    while j < codas.len()
        invariant
            j <= codas.len(),
            cv == model::views(codas@),
            dv == model::views(disabled@),
            model::views(out@) == out0 + model::coda_row(n@, cv.take(j as int), dv),
        decreases codas.len() - j,
    {
        proof {
            model::lemma_take_succ(cv, j as int);
            assert(cv.take(j as int + 1).drop_last() =~= cv.take(j as int));
        }
        let word = concat2(n.as_str(), codas[j].as_str());
        if !contains_string(disabled, &word) {
            out.push(word);
            proof {
                assert(model::views(out@) =~= out0 + model::coda_row(n@, cv.take(j as int + 1), dv));
            }
        }
        j += 1;
    }
    proof {
        assert(cv.take(codas@.len() as int) =~= cv);
    }
}

/// Appends the three-segment shapes of one nucleus to `out`: exactly
/// `cvc_rows`.
fn append_cvc_rows(
    out: &mut Vec<String>,
    n: &String,
    inits: &Vec<String>,
    codas: &Vec<String>,
    disabled: &Vec<String>,
)
    ensures
        model::views(final(out)@) == model::views(old(out)@) + model::cvc_rows(
            n@,
            model::views(inits@),
            model::views(codas@),
            model::views(disabled@),
        ),
{
    let ghost out0 = model::views(out@);
    let ghost iv = model::views(inits@);
    let ghost cv = model::views(codas@);
    let ghost dv = model::views(disabled@);
    let mut j: usize = 0;
    while j < inits.len()
        invariant
            j <= inits.len(),
            iv == model::views(inits@),
            cv == model::views(codas@),
            dv == model::views(disabled@),
            model::views(out@) == out0 + model::cvc_rows(n@, iv.take(j as int), cv, dv),
        decreases inits.len() - j,
    {
        let init = &inits[j];
        let mut k: usize = 0;
        while k < codas.len()
            invariant
                k <= codas.len(),
                j < inits.len(),
                iv == model::views(inits@),
                cv == model::views(codas@),
                dv == model::views(disabled@),
                init@ == iv[j as int],
                model::views(out@) == out0 + model::cvc_rows(n@, iv.take(j as int), cv, dv)
                    + model::cvc_inner(iv[j as int], n@, cv.take(k as int), dv),
            decreases codas.len() - k,
        {
            proof {
                model::lemma_take_succ(cv, k as int);
                assert(cv.take(k as int + 1).drop_last() =~= cv.take(k as int));
            }
            let word = concat3(init.as_str(), n.as_str(), codas[k].as_str());
            if !contains_string(disabled, &word) {
                out.push(word);
                proof {
                    assert(model::views(out@) =~= out0 + model::cvc_rows(
                        n@,
                        iv.take(j as int),
                        cv,
                        dv,
                    ) + model::cvc_inner(iv[j as int], n@, cv.take(k as int + 1), dv));
                }
            }
            k += 1;
        }
        proof {
            assert(cv.take(codas@.len() as int) =~= cv);
            model::lemma_take_succ(iv, j as int);
            assert(iv.take(j as int + 1).drop_last() =~= iv.take(j as int));
            assert(model::views(out@) =~= out0 + model::cvc_rows(n@, iv.take(j as int + 1), cv, dv));
        }
        j += 1;
    }
    proof {
        assert(iv.take(inits@.len() as int) =~= iv);
    }
}

impl SyllableBuilder {
    /// Assembles the inventory from the accumulated state: for each
    /// nucleus value, in order, the bare nucleus, always and exactly
    /// once; then, as the structure asks, its onset shapes, its coda
    /// shapes, and its three-segment shapes; every shape but the bare
    /// nucleus is dropped when it is an exact member of the disabled
    /// combination list. A pure read: the builder is unchanged.
    pub fn build(&self) -> (r: SyllableHandler)
        ensures
            r@ == model::assemble(
                self@.syllable_structure,
                self@.nucleus,
                self@.init_cluster,
                self@.coda_cluster,
                self@.disabled_combinations,
            ),
    {
        let mut syllables: Vec<String> = Vec::new();
        let onset: bool = match self.syllable_structure {
            SyllableStructure::VC => false,
            _ => true,
        };
        let coda: bool = match self.syllable_structure {
            SyllableStructure::CV => false,
            _ => true,
        };
        let ghost st = self@.syllable_structure;
        let ghost nv = self@.nucleus;
        let ghost iv = self@.init_cluster;
        let ghost cdv = self@.coda_cluster;
        let ghost dv = self@.disabled_combinations;
        proof {
            assert(onset == model::has_onset(st));
            assert(coda == model::has_coda(st));
        }
        let mut i: usize = 0;
        while i < self.nucleus.len()
            invariant
                i <= self.nucleus.len(),
                st == self@.syllable_structure,
                nv == model::views(self.nucleus@),
                iv == model::views(self.init_cluster@),
                cdv == model::views(self.coda_cluster@),
                dv == model::views(self.disabled_combinations@),
                onset == model::has_onset(st),
                coda == model::has_coda(st),
                model::views(syllables@) == model::assemble(st, nv.take(i as int), iv, cdv, dv),
            decreases self.nucleus.len() - i,
        {
            let n = &self.nucleus[i];
            syllables.push(n.clone());
            if onset {
                append_onset_row(&mut syllables, n, &self.init_cluster, &self.disabled_combinations);
            }
            if coda {
                append_coda_row(&mut syllables, n, &self.coda_cluster, &self.disabled_combinations);
            }
            if onset && coda {
                append_cvc_rows(
                    &mut syllables,
                    n,
                    &self.init_cluster,
                    &self.coda_cluster,
                    &self.disabled_combinations,
                );
            }
            proof {
                model::lemma_take_succ(nv, i as int);
                assert(nv.take(i as int + 1).drop_last() =~= nv.take(i as int));
                assert(model::views(syllables@) =~= model::assemble(
                    st,
                    nv.take(i as int + 1),
                    iv,
                    cdv,
                    dv,
                ));
            }
            i += 1;
        }
        proof {
            assert(nv.take(self.nucleus@.len() as int) =~= nv);
        }
        SyllableHandler::new(syllables)
    }
}

// ---------------------------------------------------------------------
// The inventory
// ---------------------------------------------------------------------

/// The finished inventory: the ordered sequence of syllable strings, in
/// generation order, not deduplicated, immutable once produced.
pub struct SyllableHandler {
    syllables: Vec<String>,
}

impl View for SyllableHandler {
    type V = Seq<Seq<char>>;

    closed spec fn view(&self) -> Seq<Seq<char>> {
        model::views(self.syllables@)
    }
}

impl SyllableHandler {
    /// Wraps an already generated sequence of syllable strings.
    pub fn new(syllables: Vec<String>) -> (r: Self)
        ensures
            r@ == model::views(syllables@),
    {
        Self { syllables }
    }

    /// The full ordered syllable sequence, as a fresh vector.
    pub fn all(&self) -> (r: Vec<String>)
        ensures
            model::views(r@) == self@,
    {
        let mut r: Vec<String> = Vec::new();
        let mut i: usize = 0;
        while i < self.syllables.len()
            invariant
                i <= self.syllables.len(),
                model::views(r@) == self@.take(i as int),
            decreases self.syllables.len() - i,
        {
            let s = self.syllables[i].clone();
            r.push(s);
            proof {
                model::lemma_take_succ(self@, i as int);
                assert(self@[i as int] == self.syllables@[i as int]@);
            }
            i += 1;
        }
        proof {
            assert(self@.take(self.syllables.len() as int) =~= self@);
        }
        r
    }
}

} // verus!
