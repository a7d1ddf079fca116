use canny_pipeline::{
    CannyEdgeDetection, Frame, FramePipeline, GaussianBlur, PipelineStep, RustMessage, StepError,
};

fn raw_gaussian(sigma: f64) -> Vec<u32> {
    let radius = (3.0 * sigma).ceil() as i64;
    (0..(2 * radius + 1))
        .map(|i| {
            let x = (i - radius) as f64;
            ((-x * x / (2.0 * sigma * sigma)).exp() * 16_777_216.0).round() as u32
        })
        .collect()
}

fn vertical_line() -> Frame {
    let mut data = vec![0u8; 25];
    for y in 0..5 {
        data[y * 5 + 2] = 255;
    }
    Frame { data, width: 5, height: 5, channels: 1 }
}

#[test]
fn vertical_line_gives_thin_edges() {
    let canny = CannyEdgeDetection::new("out", raw_gaussian(1.0)).unwrap();
    let out = canny.process(&vertical_line()).unwrap();
    assert_eq!((out.width, out.height, out.channels), (5, 5, 1));
    // The intensity changes fastest beside the line, so the kept ridges lie
    // on columns 1 and 3; the border rows and columns stay 0.
    assert_eq!(
        out.data,
        vec![
            0, 0, 0, 0, 0, //
            0, 255, 96, 255, 0, //
            0, 255, 0, 255, 0, //
            0, 255, 96, 255, 0, //
            0, 0, 0, 0, 0,
        ]
    );
}

#[test]
fn two_step_debug_run_plans_three_images() {
    let mut pipeline = FramePipeline::new("out");
    pipeline.add_step(PipelineStep::GaussianBlur(GaussianBlur::new("out", raw_gaussian(1.0)).unwrap()));
    pipeline.add_step(PipelineStep::CannyEdgeDetection(
        CannyEdgeDetection::new("out", raw_gaussian(1.0)).unwrap(),
    ));
    pipeline.set_debug(true);
    let frame = Frame { data: vec![90; 75], width: 5, height: 5, channels: 3 };
    let run = pipeline.process_frame(&frame, 7);
    assert_eq!(run.frame_dir, "frame_00000007_output");
    let names: Vec<&str> = run.saves.iter().map(|s| s.file_name.as_str()).collect();
    assert_eq!(
        names,
        vec![
            "debug_step_1_GaussianBlur_00000007.png",
            "debug_step_2_CannyEdgeDetection_00000007.png",
            "frame_00000007.png",
        ]
    );
    assert_eq!(run.stages.len(), 2);
    let result = run.result.unwrap();
    assert_eq!(run.saves[2].frame.data, result.data);
    assert_eq!(run.saves[1].frame.data, result.data);
}

#[test]
fn run_without_debug_plans_only_the_final_image() {
    let mut pipeline = FramePipeline::new("out");
    pipeline.add_step(PipelineStep::GaussianBlur(GaussianBlur::new("out", vec![1, 2, 1]).unwrap()));
    let frame = Frame { data: vec![0, 100, 200], width: 3, height: 1, channels: 1 };
    let run = pipeline.process_frame(&frame, 123);
    assert_eq!(run.saves.len(), 1);
    assert_eq!(run.saves[0].file_name, "frame_00000123.png");
    assert_eq!(run.result.unwrap().data, vec![12, 50, 62]);
}

#[test]
fn failing_step_aborts_the_run() {
    let mut pipeline = FramePipeline::new("out");
    pipeline.add_step(PipelineStep::GaussianBlur(GaussianBlur::new("out", vec![1, 2, 1]).unwrap()));
    pipeline.set_debug(true);
    let frame = Frame { data: vec![], width: 3, height: 1, channels: 1 };
    let run = pipeline.process_frame(&frame, 1);
    assert!(matches!(run.result, Err(StepError::Blur(_))));
    assert!(run.saves.is_empty());
    assert!(run.stages.is_empty());
}

#[test]
fn step_names() {
    let b = PipelineStep::GaussianBlur(GaussianBlur::new("out", vec![1]).unwrap());
    assert_eq!(b.name(), "GaussianBlur");
}

#[test]
fn command_messages_get_a_response() {
    let msg = RustMessage { message_type: "command".to_string(), data: "go".to_string() };
    let reply = msg.reply().unwrap();
    assert_eq!(reply.message_type, "response");
    assert_eq!(reply.data, "Processed Command: go");
    let other = RustMessage { message_type: "note".to_string(), data: "x".to_string() };
    assert!(other.reply().is_none());
}

#[test]
fn edge_detection_reports_the_blur_error() {
    let canny = CannyEdgeDetection::new("out", vec![1, 2, 1]).unwrap();
    let empty = Frame { data: vec![], width: 2, height: 2, channels: 1 };
    assert!(matches!(canny.process(&empty), Err(StepError::Blur(canny_pipeline::BlurError::EmptyInput(_)))));
    let flat = Frame { data: vec![], width: 0, height: 2, channels: 1 };
    assert!(matches!(
        canny.process(&flat),
        Err(StepError::Blur(canny_pipeline::BlurError::InvalidDimensions(_)))
    ));
}
