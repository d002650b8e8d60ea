//! A placeholder inter-frame predictor: the prediction is a copy of the
//! current frame, reference frames are not yet consulted.

use vstd::prelude::*;

verus! {

/// A stateless inter-frame predictor.
pub struct InterPrediction {}

impl InterPrediction {
    /// Constructs a predictor.
    pub fn new() -> (r: Self) {
        InterPrediction {  }
    }

    /// Predicts a frame from the current frame and the available reference
    /// frames. The prediction is exactly the bytes of the current frame.
    pub fn predict_frame(&self, current_frame: &[u8], reference_frames: &[&[u8]]) -> (r: Vec<u8>)
        ensures
            r@ == current_frame@,
    {
        let mut predicted: Vec<u8> = Vec::new();
        let mut i: usize = 0;
        while i < current_frame.len()
            invariant
                i <= current_frame@.len(),
                predicted@ == current_frame@.subrange(0, i as int),
            decreases current_frame@.len() - i,
        {
            predicted.push(current_frame[i]);
            i = i + 1;
            proof {
                assert(predicted@ =~= current_frame@.subrange(0, i as int));
            }
        }
        proof {
            assert(predicted@ =~= current_frame@);
        }
        predicted
    }
}

/// An owning wrapper around one predictor, the unit of ownership handed
/// across the foreign-function boundary by the surrounding application.
pub struct PredictorHandle {
    pub predictor: InterPrediction,
}

} // verus!
