use vstd::prelude::*;

use crate::blur::{blurred, is_blur_rejection, BlurError, GaussianBlur};
use crate::frame::{Frame, FrameError};
use crate::gradient::{gradient_at, PixelGradient, SobelOperator};
use crate::hysteresis::{eight_conn_edge_tracker_hysteris, linked_value};
use crate::suppression::{is_suppression_output, GradNonMaxSuppression};
use crate::threshold::{classify, is_grid_of_size, DoubleThresholder, MeasuredPixel};

verus! {

/// Why a pipeline step failed on a frame.
#[derive(Debug)]
pub enum StepError {
    Blur(BlurError),
    Frame(FrameError),
}

/// Lower threshold of the edge detector's double thresholding.
pub const EDGE_MIN: i32 = 10;

/// Upper threshold of the edge detector's double thresholding.
pub const EDGE_MAX: i32 = 40;

/// The frames a blur (and so every step) accepts: positive dimensions, a
/// non-empty buffer of exactly `width * height * channels` bytes, 1 or 3
/// channels.
pub open spec fn is_processable(f: Frame) -> bool {
    f.width > 0 && f.height > 0 && f.data@.len() > 0 && f.is_well_formed()
}

/// `e` is the error a step gives on a frame it cannot process: the blur's
/// own error on `f` (see `is_blur_rejection`).
pub open spec fn is_rejection(f: Frame, e: StepError) -> bool {
    match e {
        StepError::Blur(b) => is_blur_rejection(f, b),
        _ => false,
    }
}

/// The stages of edge detection on `f`, given each stage's output: `b` the
/// blurred frame, `g` its gradients, `s` the suppressed frame, `t` its
/// classification and `out` the linked edges.
pub open spec fn is_edge_chain(
    f: Frame,
    k: Seq<u64>,
    radius: int,
    b: Frame,
    g: Seq<Vec<PixelGradient>>,
    s: Frame,
    t: Seq<Vec<MeasuredPixel>>,
    out: Frame,
) -> bool {
    let w = f.width as int;
    let h = f.height as int;
    &&& b.is_gray_of_size(w, h)
    &&& b.data@ == blurred(f, k, radius)
    &&& is_grid_of_size(g, w, h)
    &&& (forall|x: int, y: int| 0 <= x < w && 0 <= y < h ==> #[trigger] g[y]@[x] == gradient_at(b, x, y))
    &&& s.is_gray_of_size(w, h)
    &&& (forall|x: int, y: int|
        0 <= x < w && 0 <= y < h ==> is_suppression_output(g, w, x, y, #[trigger] s.value_at(x, y)))
    &&& is_grid_of_size(t, w, h)
    &&& (forall|x: int, y: int|
        0 <= x < w && 0 <= y < h ==> (#[trigger] t[y]@[x]).value == s.value_at(x, y) && t[y]@[x].weight
            == classify(s.value_at(x, y), EDGE_MIN as int, EDGE_MAX as int))
    &&& out.is_gray_of_size(w, h)
    &&& (forall|x: int, y: int| 0 <= x < w && 0 <= y < h ==> #[trigger] out.value_at(x, y) == linked_value(t, x, y))
}

/// `out` is the edge map of `f`: blur, gradients, suppression,
/// thresholding at `EDGE_MIN` and `EDGE_MAX`, then hysteresis linking.
pub open spec fn is_edge_map_of(out: Frame, f: Frame, k: Seq<u64>, radius: int) -> bool {
    exists|b: Frame, g: Seq<Vec<PixelGradient>>, s: Frame, t: Seq<Vec<MeasuredPixel>>|
        #[trigger] is_edge_chain(f, k, radius, b, g, s, t, out)
}

/// Canny edge detection as one pipeline step.
pub struct CannyEdgeDetection {
    output_dir: String,
    gaussian: GaussianBlur,
}

impl CannyEdgeDetection {
    pub closed spec fn wf(&self) -> bool {
        self.gaussian.wf()
    }

    pub closed spec fn blur(&self) -> GaussianBlur {
        self.gaussian
    }

    /// Builds the detector over a blur with the given raw weights (see
    /// `GaussianBlur::new`), failing as that does.
    pub fn new(output_dir: &str, raw_weights: Vec<u32>) -> (r: Result<CannyEdgeDetection, BlurError>)
        ensures
            raw_weights@.len() % 2 == 0 ==> r matches Err(BlurError::InvalidSigma(_)),
            raw_weights@.len() % 2 == 1 && crate::blur::raw_total(raw_weights@, raw_weights@.len()) == 0
                ==> r matches Err(BlurError::ProcessingError(_)),
            raw_weights@.len() % 2 == 1 && crate::blur::raw_total(raw_weights@, raw_weights@.len()) != 0
                ==> r is Ok,
            r is Ok ==> r->Ok_0.wf() && r->Ok_0.blur().weights() == crate::blur::normalized(raw_weights@)
                && r->Ok_0.blur().radius() == raw_weights@.len() / 2,
    {
        let gaussian = GaussianBlur::new(output_dir, raw_weights)?;
        Ok(CannyEdgeDetection { output_dir: output_dir.to_owned(), gaussian })
    }

    /// Runs the five stages on a frame. Fails exactly where the blur fails.
    pub fn process(&self, frame: &Frame) -> (r: Result<Frame, StepError>)
        requires
            self.wf(),
        ensures
            r is Ok <==> is_processable(*frame),
            r is Err ==> is_rejection(*frame, r->Err_0),
            r is Ok ==> is_edge_map_of(r->Ok_0, *frame, self.blur().weights(), self.blur().radius()),
            r is Ok ==> r->Ok_0.is_gray_of_size(frame.width as int, frame.height as int),
    {
        let ghost f = *frame;
        let blurred_frame = match self.gaussian.process(frame) {
            Ok(b) => b,
            Err(e) => {
                return Err(StepError::Blur(e));
            },
        };
        let ghost b = blurred_frame;
        let gradients = match SobelOperator::calculate_gradient(&blurred_frame) {
            Ok(g) => g,
            Err(e) => {
                return Err(StepError::Frame(e));
            },
        };
        let ghost g = gradients@;
        let buffer_len = blurred_frame.data.len();
        assert(b.data@.len() == b.width * b.height);
        assert(b.height * b.width <= usize::MAX) by (nonlinear_arith)
            requires
                b.data@.len() == b.width * b.height,
                b.data@.len() == buffer_len,
                buffer_len <= usize::MAX,
        ;
        let suppressed = GradNonMaxSuppression::suppress(gradients);
        let ghost s = suppressed;
        let thresholder = DoubleThresholder { min: EDGE_MIN, max: EDGE_MAX };
        let classified = thresholder.threshold(suppressed);
        let ghost t = classified@;
        let edges = eight_conn_edge_tracker_hysteris(classified);
        assert(is_edge_chain(f, self.blur().weights(), self.blur().radius(), b, g, s, t, edges));
        Ok(edges)
    }
}

} // verus!
