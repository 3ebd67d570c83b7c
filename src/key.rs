//! Identity of a documentation artifact: package name, version and the
//! selection of features it was built with.
use crate::order::{
    compare_text, compare_text_lists, compare_u64, int_cmp, lemma_list_cmp_equal,
    lemma_list_cmp_less_trans, lemma_list_cmp_reverse, lemma_text_cmp_equal,
    lemma_text_cmp_less_trans, lemma_text_cmp_reverse, list_cmp, reverse_cmp, text_cmp, texts,
    then_cmp,
};
use core::cmp::Ordering;
use vstd::prelude::*;
use vstd::std_specs::cmp::PartialEqSpec;

verus! {

/// A release version: `major.minor.patch`.
#[derive(Clone, Copy, Debug, PartialEq, Eq, Structural)]
pub struct Version {
    pub major: u64,
    pub minor: u64,
    pub patch: u64,
}

/// Versions are ordered by major, then minor, then patch number.
pub open spec fn version_cmp(a: Version, b: Version) -> Ordering {
    then_cmp(
        int_cmp(a.major as int, b.major as int),
        then_cmp(int_cmp(a.minor as int, b.minor as int), int_cmp(a.patch as int, b.patch as int)),
    )
}

/// The decimal digit `d`, which is below ten.
pub open spec fn digit_char(d: nat) -> char {
    if d == 0 {
        '0'
    } else if d == 1 {
        '1'
    } else if d == 2 {
        '2'
    } else if d == 3 {
        '3'
    } else if d == 4 {
        '4'
    } else if d == 5 {
        '5'
    } else if d == 6 {
        '6'
    } else if d == 7 {
        '7'
    } else if d == 8 {
        '8'
    } else {
        '9'
    }
}

/// `n` written in decimal, without leading zeros.
pub open spec fn decimal(n: nat) -> Seq<char>
    decreases n,
{
    if n < 10 {
        seq![digit_char(n)]
    } else {
        decimal(n / 10).push(digit_char(n % 10))
    }
}

/// The text of a release version: `major.minor.patch`.
pub open spec fn version_text(v: Version) -> Seq<char> {
    decimal(v.major as nat) + seq!['.'] + decimal(v.minor as nat) + seq!['.'] + decimal(
        v.patch as nat,
    )
}

/// Relies on `semver::Version`'s `Display`: a version without pre-release
/// and build metadata is written as its three numbers in decimal, joined by dots.
#[verifier::external_body]
fn semver_text(major: u64, minor: u64, patch: u64) -> (r: String)
    ensures
        r@ == version_text(Version { major, minor, patch }),
{
    semver::Version::new(major, minor, patch).to_string()
}

impl Version {
    pub fn new(major: u64, minor: u64, patch: u64) -> (r: Version)
        ensures
            r == (Version { major, minor, patch }),
    {
        Version { major, minor, patch }
    }

    /// Three-way comparison of two versions.
    pub fn compare(&self, other: &Version) -> (r: Ordering)
        ensures
            r == version_cmp(*self, *other),
    {
        match compare_u64(self.major, other.major) {
            Ordering::Equal => match compare_u64(self.minor, other.minor) {
                Ordering::Equal => compare_u64(self.patch, other.patch),
                o => o,
            },
            o => o,
        }
    }

    /// The version as text, such as `1.0.0`.
    pub fn text(&self) -> (r: String)
        ensures
            r@ == version_text(*self),
    {
        semver_text(self.major, self.minor, self.patch)
    }
}

/// The features a package is built with, as a value.
pub enum FeatureSet {
    Default,
    All,
    DefaultPlus(Seq<Seq<char>>),
    NoDefault,
    NoDefaultPlus(Seq<Seq<char>>),
}

/// Position of a variant in the declared order of `Features`.
pub open spec fn feature_rank(f: FeatureSet) -> int {
    match f {
        FeatureSet::Default => 0,
        FeatureSet::All => 1,
        FeatureSet::DefaultPlus(_) => 2,
        FeatureSet::NoDefault => 3,
        FeatureSet::NoDefaultPlus(_) => 4,
    }
}

/// The extra feature names, empty for the variants without any.
pub open spec fn feature_names(f: FeatureSet) -> Seq<Seq<char>> {
    match f {
        FeatureSet::DefaultPlus(names) => names,
        FeatureSet::NoDefaultPlus(names) => names,
        _ => Seq::empty(),
    }
}

/// Feature selections are ordered by variant, then by their extra names.
pub open spec fn features_cmp(a: FeatureSet, b: FeatureSet) -> Ordering {
    then_cmp(int_cmp(feature_rank(a), feature_rank(b)), list_cmp(feature_names(a), feature_names(b)))
}

/// Which features a package's documentation is built with.
#[derive(Debug)]
pub enum Features {
    Default,
    All,
    DefaultPlus(Vec<String>),
    NoDefault,
    NoDefaultPlus(Vec<String>),
}

impl View for Features {
    type V = FeatureSet;

    open spec fn view(&self) -> FeatureSet {
        match self {
            Features::Default => FeatureSet::Default,
            Features::All => FeatureSet::All,
            Features::DefaultPlus(v) => FeatureSet::DefaultPlus(texts(v@)),
            Features::NoDefault => FeatureSet::NoDefault,
            Features::NoDefaultPlus(v) => FeatureSet::NoDefaultPlus(texts(v@)),
        }
    }
}

/// A copy of a list of strings.
fn copy_strings(v: &Vec<String>) -> (r: Vec<String>)
    ensures
        r@ == v@,
{
    let mut r: Vec<String> = Vec::new();
    let mut i: usize = 0;
    while i < v.len()
        invariant
            i <= v@.len(),
            r@ == v@.subrange(0, i as int),
        decreases v@.len() - i,
    {
        r.push(v[i].clone());
        i = i + 1;
    }
    assert(r@ =~= v@);
    r
}

impl Features {
    fn rank(&self) -> (r: u64)
        ensures
            r as int == feature_rank(self@),
    {
        match self {
            Features::Default => 0,
            Features::All => 1,
            Features::DefaultPlus(_) => 2,
            Features::NoDefault => 3,
            Features::NoDefaultPlus(_) => 4,
        }
    }

    /// Three-way comparison of two feature selections.
    pub fn compare(&self, other: &Features) -> (r: Ordering)
        ensures
            r == features_cmp(self@, other@),
    {
        match compare_u64(self.rank(), other.rank()) {
            Ordering::Equal => match (self, other) {
                (Features::DefaultPlus(a), Features::DefaultPlus(b)) => compare_text_lists(a, b),
                (Features::NoDefaultPlus(a), Features::NoDefaultPlus(b)) => compare_text_lists(a, b),
                _ => Ordering::Equal,
            },
            o => o,
        }
    }

    /// A copy of this selection.
    pub fn copied(&self) -> (r: Features)
        ensures
            r@ == self@,
    {
        match self {
            Features::Default => Features::Default,
            Features::All => Features::All,
            Features::DefaultPlus(v) => Features::DefaultPlus(copy_strings(v)),
            Features::NoDefault => Features::NoDefault,
            Features::NoDefaultPlus(v) => Features::NoDefaultPlus(copy_strings(v)),
        }
    }
}

/// A package key as a value.
pub struct KeyModel {
    pub name: Seq<char>,
    pub version: Version,
    pub features: FeatureSet,
}

/// Keys are ordered by name, then version, then feature selection.
pub open spec fn key_cmp(a: KeyModel, b: KeyModel) -> Ordering {
    then_cmp(
        text_cmp(a.name, b.name),
        then_cmp(version_cmp(a.version, b.version), features_cmp(a.features, b.features)),
    )
}

/// The identity of a documentation artifact.
#[derive(Debug)]
pub struct PkgKey {
    name: String,
    ver: Version,
    features: Features,
}

impl View for PkgKey {
    type V = KeyModel;

    closed spec fn view(&self) -> KeyModel {
        KeyModel { name: self.name@, version: self.ver, features: self.features@ }
    }
}

impl PkgKey {
    pub fn new(name: String, ver: Version, features: Features) -> (r: PkgKey)
        ensures
            r@ == (KeyModel { name: name@, version: ver, features: features@ }),
    {
        PkgKey { name, ver, features }
    }

    /// A key for the default features of a package.
    pub fn new_with_default_feature(name: String, ver: Version) -> (r: PkgKey)
        ensures
            r@ == (KeyModel { name: name@, version: ver, features: FeatureSet::Default }),
    {
        PkgKey { name, ver, features: Features::Default }
    }

    pub fn name(&self) -> (r: &str)
        ensures
            r@ == self@.name,
    {
        self.name.as_str()
    }

    pub fn version(&self) -> (r: Version)
        ensures
            r == self@.version,
    {
        self.ver
    }

    /// The version as text, such as `1.0.0`.
    pub fn ver_str(&self) -> (r: String)
        ensures
            r@ == version_text(self@.version),
    {
        self.ver.text()
    }

    pub fn features(&self) -> (r: &Features)
        ensures
            r@ == self@.features,
    {
        &self.features
    }

    /// Three-way comparison by name, then version, then features.
    pub fn compare(&self, other: &PkgKey) -> (r: Ordering)
        ensures
            r == key_cmp(self@, other@),
    {
        match compare_text(self.name.as_str(), other.name.as_str()) {
            Ordering::Equal => match self.ver.compare(&other.ver) {
                Ordering::Equal => self.features.compare(&other.features),
                o => o,
            },
            o => o,
        }
    }

    /// A copy of this key.
    pub fn copied(&self) -> (r: PkgKey)
        ensures
            r@ == self@,
    {
        PkgKey { name: self.name.clone(), ver: self.ver, features: self.features.copied() }
    }
}

/// Facts on the order of feature selections that key comparisons build on.
pub proof fn lemma_features_cmp(a: FeatureSet, b: FeatureSet, c: FeatureSet)
    ensures
        features_cmp(b, a) == reverse_cmp(features_cmp(a, b)),
        features_cmp(a, b) == Ordering::Equal <==> a == b,
        features_cmp(a, b) == Ordering::Less && features_cmp(b, c) == Ordering::Less
            ==> features_cmp(a, c) == Ordering::Less,
{
    lemma_list_cmp_reverse(feature_names(a), feature_names(b));
    lemma_list_cmp_equal(feature_names(a), feature_names(b));
    lemma_list_cmp_equal(feature_names(b), feature_names(c));
    if list_cmp(feature_names(a), feature_names(b)) == Ordering::Less && list_cmp(
        feature_names(b),
        feature_names(c),
    ) == Ordering::Less {
        lemma_list_cmp_less_trans(feature_names(a), feature_names(b), feature_names(c));
    }
}

/// Key order facts on models: a reversed comparison is the reverse, `Equal`
/// means the same key, and `Less` is transitive.
pub proof fn lemma_key_cmp(a: KeyModel, b: KeyModel, c: KeyModel)
    ensures
        key_cmp(a, a) == Ordering::Equal,
        key_cmp(b, a) == reverse_cmp(key_cmp(a, b)),
        key_cmp(a, b) == Ordering::Equal <==> a == b,
        key_cmp(a, b) == Ordering::Less && key_cmp(b, c) == Ordering::Less ==> key_cmp(a, c)
            == Ordering::Less,
{
    lemma_text_cmp_reverse(a.name, b.name);
    lemma_text_cmp_equal(a.name, a.name);
    lemma_text_cmp_equal(a.name, b.name);
    lemma_text_cmp_equal(b.name, c.name);
    lemma_features_cmp(a.features, b.features, c.features);
    lemma_features_cmp(a.features, a.features, a.features);
    lemma_features_cmp(b.features, c.features, a.features);
    if text_cmp(a.name, b.name) == Ordering::Less && text_cmp(b.name, c.name) == Ordering::Less {
        lemma_text_cmp_less_trans(a.name, b.name, c.name);
    }
}

impl PartialEq for PkgKey {
    fn eq(&self, other: &PkgKey) -> (r: bool) {
        proof {
            lemma_key_cmp(self@, other@, other@);
        }
        match self.compare(other) {
            Ordering::Equal => true,
            _ => false,
        }
    }
}

impl vstd::std_specs::cmp::PartialEqSpecImpl for PkgKey {
    open spec fn obeys_eq_spec() -> bool {
        true
    }

    open spec fn eq_spec(&self, other: &PkgKey) -> bool {
        self@ == other@
    }
}

impl Eq for PkgKey {

}

/// Key equality is reflexive, symmetric and transitive; two keys are equal
/// exactly when the key order finds them `Equal`; and that order is total:
/// comparing the other way round gives the reverse, and `Less` is transitive.
pub proof fn lemma_pkg_key_laws(a: &PkgKey, b: &PkgKey, c: &PkgKey)
    ensures
        a.eq_spec(a),
        a.eq_spec(b) == b.eq_spec(a),
        a.eq_spec(b) && b.eq_spec(c) ==> a.eq_spec(c),
        a.eq_spec(b) <==> key_cmp(a@, b@) == Ordering::Equal,
        key_cmp(b@, a@) == reverse_cmp(key_cmp(a@, b@)),
        key_cmp(a@, b@) == Ordering::Less && key_cmp(b@, c@) == Ordering::Less ==> key_cmp(
            a@,
            c@,
        ) == Ordering::Less,
{
    lemma_key_cmp(a@, b@, c@);
}

} // verus!
