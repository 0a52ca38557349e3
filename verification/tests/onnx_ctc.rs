use transcribe_cli::model::ModelComputeType;
use transcribe_cli::onnx_ctc::{
    CtcVocabulary, ExecutionError, ExecutionMode, VocabularyError, VocabularyOptions,
};
use transcribe_cli::scores::argmax;

fn strings(items: &[&str]) -> Vec<String> {
    items.iter().map(|item| item.to_string()).collect()
}

fn bits(rows: &[&[f32]]) -> Vec<Vec<u32>> {
    rows.iter().map(|row| row.iter().map(|value| value.to_bits()).collect()).collect()
}

#[test]
fn converts_vocabulary_tokens_into_text() {
    let vocabulary = CtcVocabulary {
        entries: vec![
            " ".to_string(),
            "п".to_string(),
            "р".to_string(),
            "и".to_string(),
            "<blk>".to_string(),
        ],
        blank_id: 4,
    };

    let text = vocabulary.decode_ids(&[1, 2, 3, 0, 1]);
    assert_eq!(text, "при п");
}

#[test]
fn preserves_raw_spacing_tokens() {
    let vocabulary = CtcVocabulary {
        entries: vec![" ".to_string(), "а".to_string(), "<blk>".to_string()],
        blank_id: 2,
    };

    let text = vocabulary.decode_ids(&[0, 1, 0, 1]);
    assert_eq!(text, "а а");
}

#[test]
fn supports_disabling_word_boundary_rewrite() {
    let vocabulary = CtcVocabulary {
        entries: vec!["_".to_string(), "a".to_string(), "<blk>".to_string()],
        blank_id: 2,
    };

    let text = vocabulary.decode_ids(&[0, 1]);
    assert_eq!(text, "_a");
}

#[test]
fn default_vocabulary_options_match_sentencepiece_style_ctc() {
    let options = VocabularyOptions::default();
    assert_eq!(options.blank_token, "<blk>");
    assert_eq!(options.word_boundary_token, Some("▁"));
}

#[test]
fn replaces_word_boundary_prefix_inside_tokens_from_file() {
    let vocabulary =
        CtcVocabulary::from_text("▁the 0\ncat 1\n<blk> 2\n", VocabularyOptions::default())
            .expect("vocab");

    let text = vocabulary.decode_ids(&[0, 1]);
    assert_eq!(text, "thecat");
}

#[test]
fn keeps_word_boundaries_for_sentencepiece_tokens() {
    let vocabulary = CtcVocabulary {
        entries: vec![
            " the".to_string(),
            "re".to_string(),
            " cat".to_string(),
            "<blk>".to_string(),
        ],
        blank_id: 3,
    };

    let text = vocabulary.decode_ids(&[0, 1, 2]);
    assert_eq!(text, "there cat");
}

#[test]
fn ignores_logits_past_valid_output_length() {
    let vocabulary = CtcVocabulary {
        entries: vec![" a".to_string(), " b".to_string(), "<blk>".to_string()],
        blank_id: 2,
    };
    let logits = bits(&[&[10.0, 0.0, -1.0], &[9.0, 0.0, -1.0], &[0.0, 10.0, -1.0]]);

    let text = vocabulary.decode_logits_with_lengths(&logits, Some(2));
    assert_eq!(text, "a");
}

#[test]
fn reads_all_frames_without_a_length() {
    let vocabulary = CtcVocabulary { entries: strings(&[" a", " b", "<blk>"]), blank_id: 2 };
    let logits = bits(&[
        &[10.0, 0.0, -1.0],
        &[9.0, 0.0, -1.0],
        &[-1.0, -2.0, -0.5],
        &[3.0, 0.0, -1.0],
        &[],
        &[0.0, 10.0, -1.0],
    ]);

    assert_eq!(vocabulary.decode_logits_with_lengths(&logits, None), "a a b");
    assert_eq!(vocabulary.decode_logits_with_lengths(&logits, Some(-3)), "");
    assert_eq!(vocabulary.decode_logits_with_lengths(&logits, Some(99)), "a a b");
    assert_eq!(vocabulary.decode_logits_with_lengths(&[], None), "");
}

#[test]
fn numbers_beyond_the_vocabulary_say_nothing() {
    let vocabulary = CtcVocabulary { entries: strings(&["a", "<blk>"]), blank_id: 1 };
    assert_eq!(vocabulary.decode_ids(&[0, 7, 1, 0]), "aa");
    assert_eq!(vocabulary.len(), 2);
    assert_eq!(vocabulary.blank_id(), 1);
}

#[test]
fn the_last_of_the_highest_scores_wins() {
    let row = |values: &[f32]| values.iter().map(|value| value.to_bits()).collect::<Vec<u32>>();
    let by_total_order = |values: &[f32]| {
        values
            .iter()
            .enumerate()
            .max_by(|left, right| left.1.total_cmp(right.1))
            .map(|(index, _)| index)
    };
    let cases: &[&[f32]] = &[
        &[],
        &[1.0],
        &[1.0, 1.0],
        &[0.0, -0.0],
        &[-0.0, 0.0],
        &[-1.0, -2.0, -0.5],
        &[f32::NEG_INFINITY, -1.0, f32::INFINITY, 3.0],
        &[f32::NAN, f32::INFINITY],
        &[-f32::NAN, f32::NEG_INFINITY],
        &[2.5, 7.25, 7.25, -7.5],
    ];
    for case in cases {
        assert_eq!(argmax(&row(case)), by_total_order(case));
    }
}

#[test]
fn fills_gaps_in_a_vocabulary_with_empty_tokens() {
    let vocabulary = CtcVocabulary::from_text(
        "<blk> 3\r\n\n   \n▁a▁b 1\nx y 0",
        VocabularyOptions::default(),
    )
    .expect("vocabulary");
    assert_eq!(vocabulary.entries, strings(&["x y", " a b", "", "<blk>"]));
    assert_eq!(vocabulary.blank_id, 3);
}

#[test]
fn names_what_is_wrong_with_a_vocabulary() {
    let read = |text: &str| CtcVocabulary::from_text(text, VocabularyOptions::default());
    let bad = read("a 0\n b x \n<blk> 1\n").err().expect("bad index");
    assert!(matches!(bad, VocabularyError::BadIndex { .. }));
    assert_eq!(
        bad.message(),
        "failed to parse vocabulary index from `b x`: invalid digit found in string"
    );
    let large = read("a 99999999999999999999x\n").err().expect("large index");
    assert_eq!(
        large.message(),
        "failed to parse vocabulary index from `a 99999999999999999999x`: number too large to fit in target type"
    );
    let bare = read("17\n").err().expect("no token");
    assert!(matches!(bare, VocabularyError::MissingToken));
    assert_eq!(bare.message(), "vocabulary entry does not contain a token");
    let blank = read("a 0\n").err().expect("no blank");
    assert!(matches!(blank, VocabularyError::MissingBlank { .. }));
    assert_eq!(blank.message(), "CTC vocabulary does not contain the blank token `<blk>`");
}

#[test]
fn chooses_where_a_model_runs() {
    let cpu = ExecutionMode::from_cli(false, -1, None, false).expect("cpu");
    assert_eq!(cpu.device_label(), "cpu");
    assert_eq!(cpu.compute_type_label(), "int8");
    assert_eq!(cpu.gpu_device(), None);

    let gpu = ExecutionMode::from_cli(true, 2, None, true).expect("gpu");
    assert_eq!(gpu.device_label(), "cuda");
    assert_eq!(gpu.compute_type_label(), "float32");
    assert_eq!(gpu.gpu_device(), Some(2));

    let asked = ExecutionMode::from_cli(true, 0, Some(ModelComputeType::Int8), true).expect("gpu");
    assert_eq!(asked.compute_type(), ModelComputeType::Int8);

    let negative = ExecutionMode::from_cli(true, -1, None, true).err().expect("negative");
    assert_eq!(negative, ExecutionError::NegativeDevice);
    assert_eq!(negative.message(), "CUDA device index must be non-negative");
    let missing = ExecutionMode::from_cli(true, -1, None, false).err().expect("no gpu");
    assert_eq!(missing, ExecutionError::GpuNotSupported);
    assert_eq!(
        missing.message(),
        "--gpu requires a build with ONNX Runtime CUDA support, for example `cargo install --features cuda`"
    );
}

#[test]
fn blanks_say_nothing() {
    let vocabulary =
        CtcVocabulary { entries: strings(&[" ", "a", "b", "<blk>"]), blank_id: 3 };
    assert_eq!(vocabulary.decode_ids(&[3, 0, 1, 3, 3, 2, 0, 3, 1]), "ab a");
    assert_eq!(vocabulary.decode_ids(&[0, 1, 2, 0, 1]), "ab a");
    assert_eq!(vocabulary.decode_ids(&[3, 3]), "");
}

#[test]
fn a_frame_that_comes_twice_counts_once() {
    let vocabulary = CtcVocabulary { entries: strings(&[" a", " b", "<blk>"]), blank_id: 2 };
    let logits = bits(&[
        &[10.0, 0.0, -1.0],
        &[-1.0, -2.0, -0.5],
        &[3.0, 0.0, -1.0],
        &[0.0, 10.0, -1.0],
    ]);
    assert_eq!(vocabulary.decode_logits_with_lengths(&logits, Some(3)), "a a");
    for at in 0..3 {
        let mut longer = logits.clone();
        longer.insert(at, logits[at].clone());
        assert_eq!(vocabulary.decode_logits_with_lengths(&longer, Some(4)), "a a");
        assert_eq!(vocabulary.decode_logits_with_lengths(&longer, None), "a a b");
    }
}
