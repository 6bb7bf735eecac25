use stratum_dsp::features::key::templates::TemplateSet;
use stratum_dsp::features::key::templates;
use stratum_dsp::float::F32;

fn g(x: F32) -> f32 {
    f32::from_bits(x.bits)
}

struct KeyTemplates {
    major: Vec<Vec<f32>>,
    minor: Vec<Vec<f32>>,
    inner: templates::KeyTemplates,
}

fn flat(v: &[F32]) -> Vec<f32> {
    v.iter().map(|&x| g(x)).collect()
}

impl KeyTemplates {
    fn new() -> Self {
        Self::of(templates::KeyTemplates::new())
    }

    fn of(inner: templates::KeyTemplates) -> Self {
        KeyTemplates {
            major: inner.major.iter().map(|t| flat(t)).collect(),
            minor: inner.minor.iter().map(|t| flat(t)).collect(),
            inner,
        }
    }

    fn get_template(&self, i: u32) -> Vec<f32> {
        flat(self.inner.get_template(i))
    }

    fn get_major_template(&self, i: u32) -> Vec<f32> {
        flat(self.inner.get_major_template(i))
    }

    fn get_minor_template(&self, i: u32) -> Vec<f32> {
        flat(self.inner.get_minor_template(i))
    }
}

#[test]
fn test_key_templates_creation() {
    let templates = KeyTemplates::new();

    // Check that all templates have 12 elements
    for i in 0..12 {
        assert_eq!(templates.major[i].len(), 12);
        assert_eq!(templates.minor[i].len(), 12);
    }
}

#[test]
fn test_c_major_template() {
    let templates = KeyTemplates::new();
    let c_major = templates.get_major_template(0);

    // C major should strongly emphasize C, E, G (tonic, major third, perfect fifth).
    // With canonical K-K profiles (L2-normalized), absolute values are not tiny, so we test *relative* structure.
    let tonic = c_major[0];
    let third = c_major[4];
    let fifth = c_major[7];

    // Tonic should be the maximum (or tied within float epsilon).
    let max = c_major.iter().cloned().fold(f32::NEG_INFINITY, f32::max);
    assert!((tonic - max).abs() < 1e-6);

    // Third and fifth should be among the strongest components.
    let mut sorted = c_major.to_vec();
    sorted.sort_by(|a, b| b.partial_cmp(a).unwrap());
    let top4_threshold = sorted[3];
    assert!(third >= top4_threshold);
    assert!(fifth >= top4_threshold);

    // Strong preference over chromatic tones (e.g., C#, D#, F#, G#, A#)
    let chromatic_avg = (c_major[1] + c_major[3] + c_major[6] + c_major[8] + c_major[10]) / 5.0;
    assert!(tonic > chromatic_avg * 1.4);
    assert!(third > chromatic_avg * 1.1);
    assert!(fifth > chromatic_avg * 1.2);
}

#[test]
fn test_a_minor_template() {
    let templates = KeyTemplates::new();
    let a_minor = templates.get_minor_template(9); // A is index 9

    // A minor should have high values for A, C, E (tonic, minor third, perfect fifth)
    assert!(a_minor[9] > 0.1); // A (tonic)
    assert!(a_minor[0] > 0.1); // C (minor third)
    assert!(a_minor[4] > 0.1); // E (perfect fifth)
}

#[test]
fn test_get_template() {
    let templates = KeyTemplates::new();

    // Test major keys (0-11)
    let c_major = templates.get_template(0);
    assert_eq!(c_major.len(), 12);

    // Test minor keys (12-23)
    let a_minor = templates.get_template(21); // A minor is 12 + 9 = 21
    assert_eq!(a_minor.len(), 12);
}

#[test]
fn test_template_rotation() {
    let templates = KeyTemplates::new();

    // C major and D major should be related by rotation
    let _c_major = templates.get_major_template(0);
    let d_major = templates.get_major_template(2); // D is 2 semitones above C

    // D major should have high value at index 2 (D)
    assert!(d_major[2] > 0.1);

    // The pattern should be rotated
    // C major's tonic (index 0) should correspond to D major's subdominant (index 10)
    // This is a simplified check - the full relationship is more complex
}


#[test]
fn templates_are_rotations_of_each_other() {
    for set in [TemplateSet::KrumhanslKessler, TemplateSet::Temperley] {
        let t = KeyTemplates::of(templates::KeyTemplates::new_with_template_set(set));
        let c_major = t.get_major_template(0);
        for tonic in 0..12usize {
            let other = t.get_template(tonic as u32);
            for class in 0..12usize {
                assert!((other[(class + tonic) % 12] - c_major[class]).abs() < 1e-6);
            }
        }
        let norm: f32 = c_major.iter().map(|x| x * x).sum();
        assert!((norm - 1.0).abs() < 1e-5);
    }
}
