//! Key profiles.
//!
//! Two published sets: Krumhansl and Kessler (1982), from listening experiments,
//! and Temperley (1999), from a corpus. Each gives one profile for C major and
//! one for C minor; the profiles of the other keys are these, rotated.
use crate::float::ratio;
use crate::float::F32;
use crate::vector::normalize;
use crate::vector::normalized;
use vstd::prelude::*;

verus! {

/// A set of key profiles.
#[derive(Debug, Clone, Copy, PartialEq, Eq, Structural)]
pub enum TemplateSet {
    /// Krumhansl and Kessler (1982)
    KrumhanslKessler,
    /// Temperley (1999)
    Temperley,
}

/// Key profiles of all 24 keys.
#[derive(Debug, Clone)]
pub struct KeyTemplates {
    /// Major keys, from C to B
    pub major: [Vec<F32>; 12],
    /// Minor keys, from C to B
    pub minor: [Vec<F32>; 12],
}

/// The profile of C major, from C to B.
pub open spec fn c_major_profile(set: TemplateSet) -> Seq<F32> {
    match set {
        TemplateSet::KrumhanslKessler => seq![
            ratio(635, 100), ratio(223, 100), ratio(348, 100), ratio(233, 100),
            ratio(438, 100), ratio(409, 100), ratio(252, 100), ratio(519, 100),
            ratio(239, 100), ratio(366, 100), ratio(229, 100), ratio(288, 100),
        ],
        TemplateSet::Temperley => seq![
            ratio(50, 10), ratio(20, 10), ratio(35, 10), ratio(20, 10),
            ratio(45, 10), ratio(40, 10), ratio(20, 10), ratio(45, 10),
            ratio(20, 10), ratio(35, 10), ratio(15, 10), ratio(40, 10),
        ],
    }
}

/// The profile of C minor, from C to B.
pub open spec fn c_minor_profile(set: TemplateSet) -> Seq<F32> {
    match set {
        TemplateSet::KrumhanslKessler => seq![
            ratio(633, 100), ratio(268, 100), ratio(352, 100), ratio(538, 100),
            ratio(260, 100), ratio(353, 100), ratio(254, 100), ratio(475, 100),
            ratio(398, 100), ratio(269, 100), ratio(334, 100), ratio(317, 100),
        ],
        TemplateSet::Temperley => seq![
            ratio(50, 10), ratio(20, 10), ratio(35, 10), ratio(50, 10),
            ratio(20, 10), ratio(35, 10), ratio(20, 10), ratio(45, 10),
            ratio(35, 10), ratio(20, 10), ratio(40, 10), ratio(35, 10),
        ],
    }
}

/// A profile moved up by `tonic` semitones.
pub open spec fn rotated(profile: Seq<F32>, tonic: int) -> Seq<F32> {
    Seq::new(12, |i: int| profile[(i + 12 - tonic) % 12])
}

/// The template of the key on `tonic`: the rotated profile, at length one.
pub open spec fn template_of(profile: Seq<F32>, tonic: int) -> Seq<F32> {
    normalized(rotated(profile, tonic), ratio(1, 1_000_000_000_000))
}

/// The templates of a set by place: major keys from C to B, then minor keys.
pub open spec fn profiles_of(set: TemplateSet) -> Seq<Seq<F32>> {
    Seq::new(
        24,
        |i: int|
            if i < 12 {
                template_of(c_major_profile(set), i)
            } else {
                template_of(c_minor_profile(set), i - 12)
            },
    )
}

/// Rotating a profile by some semitones and then by more is rotating it by all of them.
pub proof fn lemma_rotations_add_up(profile: Seq<F32>, a: int, b: int)
    requires
        profile.len() == 12,
        0 <= a < 12,
        0 <= b < 12,
    ensures
        rotated(rotated(profile, a), b) == rotated(profile, (a + b) % 12),
{
    assert forall|i: int| 0 <= i < 12 implies rotated(rotated(profile, a), b)[i] == rotated(
        profile,
        (a + b) % 12,
    )[i] by {
        let j = (i + 12 - b) % 12;
        assert(0 <= j < 12);
        assert((j + 12 - a) % 12 == (i + 12 - (a + b) % 12) % 12);
    }
    assert(rotated(rotated(profile, a), b) =~= rotated(profile, (a + b) % 12));
}

/// The tonic of every key has the weight that the profile gives to C.
pub proof fn lemma_tonic_weight(profile: Seq<F32>, tonic: int)
    requires
        profile.len() == 12,
        0 <= tonic < 12,
    ensures
        rotated(profile, tonic)[tonic] == profile[0],
{
}

fn make_template(profile: &[F32], tonic: usize) -> (r: Vec<F32>)
    requires
        profile@.len() == 12,
        tonic < 12,
    ensures
        r@ == template_of(profile@, tonic as int),
{
    let mut r: Vec<F32> = Vec::new();
    let mut i: usize = 0;
    while i < 12
        invariant
            i <= 12,
            tonic < 12,
            profile@.len() == 12,
            r@.len() == i,
            forall|k: int| 0 <= k < i ==> r@[k] == profile@[(k + 12 - tonic) % 12],
        decreases 12 - i,
    {
        r.push(profile[(i + 12 - tonic) % 12]);
        i = i + 1;
    }
    assert(r@ =~= rotated(profile@, tonic as int));
    normalize(&mut r, ratio(1, 1_000_000_000_000));
    r
}

fn make_templates(profile: &[F32]) -> (r: [Vec<F32>; 12])
    requires
        profile@.len() == 12,
    ensures
        forall|k: int| 0 <= k < 12 ==> (#[trigger] r@[k])@ == template_of(profile@, k),
{
    [
        make_template(profile, 0),
        make_template(profile, 1),
        make_template(profile, 2),
        make_template(profile, 3),
        make_template(profile, 4),
        make_template(profile, 5),
        make_template(profile, 6),
        make_template(profile, 7),
        make_template(profile, 8),
        make_template(profile, 9),
        make_template(profile, 10),
        make_template(profile, 11),
    ]
}

impl KeyTemplates {
    /// The templates by place: major keys from C to B, then minor keys.
    pub open spec fn profiles(self) -> Seq<Seq<F32>> {
        Seq::new(
            24,
            |i: int|
                if i < 12 {
                    self.major@[i]@
                } else {
                    self.minor@[i - 12]@
                },
        )
    }

    /// The Krumhansl-Kessler templates.
    pub fn new() -> (r: KeyTemplates)
        ensures
            r.profiles() == profiles_of(TemplateSet::KrumhanslKessler),
    {
        KeyTemplates::new_with_template_set(TemplateSet::KrumhanslKessler)
    }

    /// The templates of a set.
    pub fn new_with_template_set(template_set: TemplateSet) -> (r: KeyTemplates)
        ensures
            r.profiles() == profiles_of(template_set),
    {
        match template_set {
            TemplateSet::KrumhanslKessler => KeyTemplates::new_krumhansl_kessler(),
            TemplateSet::Temperley => KeyTemplates::new_temperley(),
        }
    }

    fn new_krumhansl_kessler() -> (r: KeyTemplates)
        ensures
            r.profiles() == profiles_of(TemplateSet::KrumhanslKessler),
    {
        let c_major: [F32; 12] = [
            ratio(635, 100), ratio(223, 100), ratio(348, 100), ratio(233, 100),
            ratio(438, 100), ratio(409, 100), ratio(252, 100), ratio(519, 100),
            ratio(239, 100), ratio(366, 100), ratio(229, 100), ratio(288, 100),
        ];
        let c_minor: [F32; 12] = [
            ratio(633, 100), ratio(268, 100), ratio(352, 100), ratio(538, 100),
            ratio(260, 100), ratio(353, 100), ratio(254, 100), ratio(475, 100),
            ratio(398, 100), ratio(269, 100), ratio(334, 100), ratio(317, 100),
        ];
        assert(c_major@ =~= c_major_profile(TemplateSet::KrumhanslKessler));
        assert(c_minor@ =~= c_minor_profile(TemplateSet::KrumhanslKessler));
        let r = KeyTemplates { major: make_templates(&c_major), minor: make_templates(&c_minor) };
        assert(r.profiles() =~= profiles_of(TemplateSet::KrumhanslKessler));
        r
    }

    fn new_temperley() -> (r: KeyTemplates)
        ensures
            r.profiles() == profiles_of(TemplateSet::Temperley),
    {
        let c_major: [F32; 12] = [
            ratio(50, 10), ratio(20, 10), ratio(35, 10), ratio(20, 10),
            ratio(45, 10), ratio(40, 10), ratio(20, 10), ratio(45, 10),
            ratio(20, 10), ratio(35, 10), ratio(15, 10), ratio(40, 10),
        ];
        let c_minor: [F32; 12] = [
            ratio(50, 10), ratio(20, 10), ratio(35, 10), ratio(50, 10),
            ratio(20, 10), ratio(35, 10), ratio(20, 10), ratio(45, 10),
            ratio(35, 10), ratio(20, 10), ratio(40, 10), ratio(35, 10),
        ];
        assert(c_major@ =~= c_major_profile(TemplateSet::Temperley));
        assert(c_minor@ =~= c_minor_profile(TemplateSet::Temperley));
        let r = KeyTemplates { major: make_templates(&c_major), minor: make_templates(&c_minor) };
        assert(r.profiles() =~= profiles_of(TemplateSet::Temperley));
        r
    }

    /// The template of a key: major keys are 0 to 11, minor keys 12 to 23.
    pub fn get_template(&self, key_idx: u32) -> (r: &[F32])
        requires
            key_idx < 24,
        ensures
            r@ == self.profiles()[key_idx as int],
    {
        if key_idx < 12 {
            self.major[key_idx as usize].as_slice()
        } else {
            self.minor[(key_idx - 12) as usize].as_slice()
        }
    }

    /// The template of a major key.
    pub fn get_major_template(&self, key_idx: u32) -> (r: &[F32])
        ensures
            r@ == self.profiles()[key_idx as int % 12],
    {
        self.major[key_idx as usize % 12].as_slice()
    }

    /// The template of a minor key.
    pub fn get_minor_template(&self, key_idx: u32) -> (r: &[F32])
        ensures
            r@ == self.profiles()[12 + key_idx as int % 12],
    {
        self.minor[key_idx as usize % 12].as_slice()
    }
}

impl Default for KeyTemplates {
    fn default() -> (r: KeyTemplates)
        ensures
            r.profiles() == profiles_of(TemplateSet::KrumhanslKessler),
    {
        KeyTemplates::new()
    }
}

} // verus!
