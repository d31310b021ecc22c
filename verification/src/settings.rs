//! Fixed enumerations that drive every generation stage, and the
//! configuration error they can raise.

use vstd::prelude::*;

verus! {

/// Which syllable shapes the assembler emits.
/// `C` stands for an onset or coda cluster, `V` for a nucleus
/// (a vowel, diphthong or glide). `All` emits every shape.
/// The bare nucleus is emitted for every structure.
#[derive(Clone, Copy, Debug, PartialEq, Eq, Structural)]
pub enum SyllableStructure {
    All,
    CV,
    VC,
    CVC,
}

/// Which diphthongs the expander derives.
/// `All`: the full ordered vowel x vowel cross product, self-pairs included.
/// `NoLong`: the cross product without pairs of equal vowels.
/// `OnlyGiven`: the caller-supplied list, verbatim, no derivation.
/// `DisableGiven`: the full cross product minus a caller-supplied
/// exclusion list, matched by exact string equality.
#[derive(Clone, Copy, Debug, PartialEq, Eq, Structural)]
pub enum Diphthongs {
    All,
    NoLong,
    OnlyGiven,
    DisableGiven,
}

/// Which semivowel-prefixed nucleus variants the expander derives.
/// `All`: a "y"-prefixed and a "w"-prefixed variant of every vowel and
/// every diphthong. `AllOnlyU`: only the "w" variants.
/// `AllOnlyY`: only the "y" variants.
#[derive(Clone, Copy, Debug, PartialEq, Eq, Structural)]
pub enum Glides {
    All,
    AllOnlyU,
    AllOnlyY,
}

/// The maximum length, in consonant symbols, of a derived cluster.
/// `Unset` is valid only for cluster modes that do not derive clusters.
#[derive(Clone, Copy, Debug, PartialEq, Eq, Structural)]
pub enum ConsonantClusterLength {
    C,
    CC,
    CCC,
    CCCC,
    Unset,
}

/// Which consonant clusters the expander derives. Single consonants are
/// always part of the effective pool, whatever the mode.
/// `All`: every ordered consonant string up to the configured length.
/// `NoDouble`: the same, but no candidate in which two adjacent symbols
/// are equal, and no extension of such a candidate.
/// `OnlyGiven`: the caller-supplied list, no derivation.
/// `DisableGiven`: the `All` derivation minus a caller-supplied
/// exclusion list, matched by exact string equality.
#[derive(Clone, Copy, Debug, PartialEq, Eq, Structural)]
pub enum ConsonantCluster {
    All,
    NoDouble,
    OnlyGiven,
    DisableGiven,
}

/// The output target for a written inventory: a delimited file under the
/// given path, or a relational store (a declared extension point).
#[derive(Clone, Debug)]
pub enum WriteOption {
    CSV(String),
    PSQL,
}

/// The phonetic format of a written inventory (a declared extension point).
#[derive(Clone, Copy, Debug)]
pub enum SyllableFormat {
    IPA,
    Romanization,
}

/// A configuration fault: a stage was asked to run under a mode it does
/// not serve, or a mode that needs caller-supplied data ran without it.
/// Construction aborts with the error; no partial result is handed out.
#[derive(Clone, Copy, Debug, PartialEq, Eq, Structural)]
pub enum ConfigError {
    /// Diphthong data was supplied under a mode other than `OnlyGiven`.
    DiphthongDataNotExpected,
    /// A diphthong exclusion list was supplied under a mode other than
    /// `DisableGiven`.
    DisabledDiphthongsNotExpected,
    /// Cluster data was supplied under a mode other than `OnlyGiven`.
    ClusterDataNotExpected,
    /// A cluster exclusion list was supplied under a mode other than
    /// `DisableGiven`.
    DisabledClustersNotExpected,
    /// Diphthong derivation ran under `OnlyGiven` with no data supplied.
    DiphthongDataMissing,
    /// Diphthong derivation ran under `DisableGiven` with no exclusion
    /// list supplied.
    DisabledDiphthongsMissing,
    /// Cluster derivation ran under `OnlyGiven`, which bypasses it.
    ClusterDerivationNotExpected,
    /// Cluster derivation ran under `DisableGiven` with no exclusion
    /// list supplied.
    DisabledClustersMissing,
    /// Cluster derivation ran with length `None`, for which no
    /// generation rule exists.
    ClusterLengthUnsupported,
}

impl ConfigError {
    /// A short description of the fault, for callers that report it.
    pub fn describe(&self) -> (r: &'static str)
        ensures
            r@.len() > 0,
    {
        let s: &'static str = match self {
            ConfigError::DiphthongDataNotExpected => {
                "diphthong data is accepted only in mode OnlyGiven"
            },
            ConfigError::DisabledDiphthongsNotExpected => {
                "disabled diphthongs are accepted only in mode DisableGiven"
            },
            ConfigError::ClusterDataNotExpected => {
                "cluster data is accepted only in mode OnlyGiven"
            },
            ConfigError::DisabledClustersNotExpected => {
                "disabled clusters are accepted only in mode DisableGiven"
            },
            ConfigError::DiphthongDataMissing => {
                "mode OnlyGiven needs diphthong data before derivation"
            },
            ConfigError::DisabledDiphthongsMissing => {
                "mode DisableGiven needs disabled diphthongs before derivation"
            },
            ConfigError::ClusterDerivationNotExpected => {
                "mode OnlyGiven bypasses cluster derivation"
            },
            ConfigError::DisabledClustersMissing => {
                "mode DisableGiven needs disabled clusters before derivation"
            },
            ConfigError::ClusterLengthUnsupported => {
                "no clusters can be derived for this length"
            },
        };
        proof {
            reveal_strlit("diphthong data is accepted only in mode OnlyGiven");
            reveal_strlit("disabled diphthongs are accepted only in mode DisableGiven");
            reveal_strlit("cluster data is accepted only in mode OnlyGiven");
            reveal_strlit("disabled clusters are accepted only in mode DisableGiven");
            reveal_strlit("mode OnlyGiven needs diphthong data before derivation");
            reveal_strlit("mode DisableGiven needs disabled diphthongs before derivation");
            reveal_strlit("mode OnlyGiven bypasses cluster derivation");
            reveal_strlit("mode DisableGiven needs disabled clusters before derivation");
            reveal_strlit("no clusters can be derived for this length");
        }
        s
    }
}

} // verus!
