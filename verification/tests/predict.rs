use ref_frame_pool::predict::{InterPrediction, PredictorHandle};

#[test]
fn prediction_is_copy_of_current_frame() {
    let predictor = InterPrediction::new();
    let current = [1u8, 2, 3, 4];
    let reference_a = [9u8, 9];
    let reference_b = [7u8];
    let references: [&[u8]; 2] = [&reference_a, &reference_b];
    let predicted = predictor.predict_frame(&current, &references);
    assert_eq!(predicted, vec![1, 2, 3, 4]);
}

#[test]
fn prediction_of_empty_frame_is_empty() {
    let predictor = InterPrediction::new();
    let current: [u8; 0] = [];
    let references: [&[u8]; 0] = [];
    let predicted = predictor.predict_frame(&current, &references);
    assert!(predicted.is_empty());
}

#[test]
fn predictor_handle_owns_a_predictor() {
    let handle = PredictorHandle { predictor: InterPrediction::new() };
    let current = [5u8];
    let references: [&[u8]; 0] = [];
    let predicted = handle.predictor.predict_frame(&current, &references);
    assert_eq!(predicted, vec![5]);
}
