use sumcheck::{BaseElem, ExtElem, Fields, Transcript};

#[test]
fn test_transcript_initialization() {
    let mut transcript = Transcript::init();

    let base_field_element = BaseElem::new(51);

    transcript.observe_base_element(&[base_field_element]);

    let challenge = transcript.sample_challenge();

    transcript.observe_ext_element(&[challenge]);

    let extension_field_element: ExtElem = ExtElem::from_u64(5);

    transcript.observe_ext_element(&[extension_field_element]);

    let challenge = transcript.sample_challenge();

    transcript.observe_ext_element(&[challenge]);

    let challenge = transcript.sample_n_challenges(6);

    transcript.observe_ext_element(&challenge);
}

#[test]
fn test_transcript_determinism() {
    // Two transcripts fed the same events derive the same challenges.
    let mut a = Transcript::init();
    let mut b = Transcript::init();
    a.observe(&[Fields::base_from_u64(7), Fields::ext_from_u64(9)]);
    b.observe(&[Fields::base_from_u64(7), Fields::ext_from_u64(9)]);
    assert_eq!(a.sample_challenge(), b.sample_challenge());

    // A transcript fed different events diverges.
    let mut c = Transcript::init();
    c.observe(&[Fields::base_from_u64(8), Fields::ext_from_u64(9)]);
    let mut d = Transcript::init();
    d.observe(&[Fields::base_from_u64(7), Fields::ext_from_u64(9)]);
    assert_ne!(c.sample_challenge(), d.sample_challenge());
}
