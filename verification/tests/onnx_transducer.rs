use transcribe_cli::onnx_ctc::CtcVocabulary;
use transcribe_cli::onnx_transducer::{
    infer_state_shape, DecoderStateSpec, ModelInput, StateShapeError, TdtDecoder, TdtError,
};

fn vocabulary() -> CtcVocabulary {
    CtcVocabulary {
        entries: vec![" a".to_string(), "b".to_string(), "<blk>".to_string()],
        blank_id: 2,
    }
}

fn scores(token: usize, frames: usize) -> Vec<u32> {
    let mut values = vec![0.0f32; 3 + 5];
    values[token] = 1.0;
    values[3 + frames] = 1.0;
    values.iter().map(|value| value.to_bits()).collect()
}

#[test]
fn moves_on_as_the_scores_say() {
    let vocabulary = vocabulary();
    let mut decoder = TdtDecoder::new(&vocabulary, 10, 6, 6);
    let first = decoder.next_request().expect("frame");
    assert_eq!((first.frame, first.previous_token), (0, 2));
    assert!(decoder.advance(&scores(0, 2)).expect("token"));
    let second = decoder.next_request().expect("frame");
    assert_eq!((second.frame, second.previous_token), (2, 0));
    assert!(!decoder.advance(&scores(2, 0)).expect("blank"));
    assert_eq!(decoder.next_request().expect("frame").frame, 3);
    assert!(decoder.advance(&scores(1, 0)).expect("token"));
    assert_eq!(decoder.next_request().expect("frame").frame, 3);
    assert!(decoder.advance(&scores(1, 4)).expect("token"));
    assert!(decoder.next_request().is_none());
    assert_eq!(decoder.text(&vocabulary), "abb");
}

#[test]
fn a_frame_gives_no_more_than_it_may() {
    let vocabulary = vocabulary();
    let mut decoder = TdtDecoder::new(&vocabulary, 2, 9, 2);
    let mut answers = 0;
    while decoder.next_request().is_some() {
        decoder.advance(&scores(1, 0)).expect("token");
        answers += 1;
    }
    assert_eq!(answers, 4);
    assert_eq!(decoder.text(&vocabulary), "bbbb");
}

#[test]
fn nothing_is_asked_without_frames() {
    let vocabulary = vocabulary();
    assert!(TdtDecoder::new(&vocabulary, 0, 0, 5).next_request().is_none());
    assert!(TdtDecoder::new(&vocabulary, 0, -4, 5).next_request().is_none());
    assert!(TdtDecoder::new(&vocabulary, 0, 4, 0).next_request().is_none());
    assert_eq!(TdtDecoder::new(&vocabulary, 0, 4, 0).text(&vocabulary), "");
}

#[test]
fn scores_must_cover_the_vocabulary() {
    let vocabulary = vocabulary();
    let mut decoder = TdtDecoder::new(&vocabulary, 1, 1, 1);
    let narrow = decoder.advance(&[0, 0, 0]).err().expect("narrow");
    assert!(matches!(narrow, TdtError::Width { width: 3, vocabulary: 3 }));
    assert_eq!(
        narrow.message(),
        "unexpected Parakeet TDT output width 3; expected more than vocabulary size 3"
    );
    let empty = CtcVocabulary { entries: Vec::new(), blank_id: 0 };
    let mut decoder = TdtDecoder::new(&empty, 1, 1, 1);
    let none = decoder.advance(&[0]).err().expect("none");
    assert!(matches!(none, TdtError::NoTokens));
    assert_eq!(none.message(), "Parakeet TDT emitted empty token logits");
}

fn input(name: &str, shape: Option<Vec<i64>>) -> ModelInput {
    ModelInput { name: name.to_string(), shape }
}

#[test]
fn reads_the_shapes_of_both_states() {
    let inputs = vec![
        input("encoder_outputs", None),
        input("input_states_1", Some(vec![2, -1, 640])),
        input("input_states_2", Some(vec![3, 1, 320])),
    ];
    let states = DecoderStateSpec::from_inputs(&inputs).expect("states");
    assert_eq!(states.initial_dimensions(), ((2, 1, 640), (3, 1, 320)));
}

#[test]
fn names_what_is_wrong_with_a_state() {
    let message = |shape: Option<Vec<i64>>| {
        infer_state_shape(&[input("s", shape)], "s").err().expect("fault").message()
    };
    assert_eq!(
        infer_state_shape(&[], "s").err().expect("fault").message(),
        "transducer model does not define `s`"
    );
    assert_eq!(message(None), "transducer input `s` is not a tensor");
    assert_eq!(
        message(Some(vec![1, 2])),
        "transducer input `s` has unsupported rank 2; expected 3"
    );
    assert_eq!(
        message(Some(vec![-1, 1, 0])),
        "transducer input `s` has unsupported layer dimension -1"
    );
    assert_eq!(
        message(Some(vec![1, 1, 0])),
        "transducer input `s` has unsupported hidden dimension 0"
    );
    let second = DecoderStateSpec::from_inputs(&[input("input_states_1", Some(vec![1, 1, 1]))]);
    assert!(matches!(second, Err(StateShapeError::Missing { .. })));
}
