//! Canny edge detection over video frames, as a staged pipeline of verified
//! image transforms: Gaussian blur, Sobel gradients, non-maximum suppression,
//! double thresholding and hysteresis linking, run by a frame pipeline that
//! plans which images to save.

pub mod blur;
pub mod canny;
pub mod frame;
pub mod gradient;
pub mod hysteresis;
pub mod message;
pub mod pipeline;
pub mod suppression;
pub mod threshold;

pub use blur::{BlurError, GaussianBlur, KERNEL_UNIT};
pub use canny::{CannyEdgeDetection, StepError};
pub use frame::{Frame, FrameError};
pub use gradient::{PixelGradient, SobelOperator};
pub use hysteresis::eight_conn_edge_tracker_hysteris;
pub use message::RustMessage;
pub use pipeline::{FramePipeline, FrameRun, PipelineStep, SavedImage};
pub use suppression::GradNonMaxSuppression;
pub use threshold::{DoubleThresholder, MeasuredPixel, Strength, ThresholdError};
