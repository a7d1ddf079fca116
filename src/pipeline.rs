use vstd::prelude::*;

use crate::blur::{blurred, GaussianBlur};
use crate::canny::{is_edge_map_of, is_processable, is_rejection, CannyEdgeDetection, StepError};
use crate::frame::Frame;

use vstd::string::StringExecFns;

verus! {

/// The decimal digits of `n`, most significant first.
pub open spec fn decimal(n: nat) -> Seq<char>
    decreases n,
{
    let digits = seq!['0', '1', '2', '3', '4', '5', '6', '7', '8', '9'];
    if n < 10 {
        seq![digits[n as int]]
    } else {
        decimal(n / 10) + seq![digits[(n % 10) as int]]
    }
}

/// `n` in decimal, padded with leading zeros to at least `width` digits.
pub open spec fn zero_padded(n: nat, width: nat) -> Seq<char> {
    let d = decimal(n);
    if d.len() < width {
        Seq::new((width - d.len()) as nat, |i: int| '0') + d
    } else {
        d
    }
}

/// Name of the directory that holds the images of frame `frame_index`.
pub open spec fn frame_dir_spec(frame_index: nat) -> Seq<char> {
    "frame_"@ + zero_padded(frame_index, 8) + "_output"@
}

/// Name of the image of step `step_number` (counted from 1) on a frame.
pub open spec fn debug_file_spec(step_number: nat, step_name: Seq<char>, frame_index: nat) -> Seq<char> {
    "debug_step_"@ + decimal(step_number) + "_"@ + step_name + "_"@ + zero_padded(frame_index, 8) + ".png"@
}

/// Name of the final image of a frame.
pub open spec fn final_file_spec(frame_index: nat) -> Seq<char> {
    "frame_"@ + zero_padded(frame_index, 8) + ".png"@
}

/// The decimal digit `d` as a one-character string.
fn digit_text(d: u64) -> (r: &'static str)
    requires
        d < 10,
    ensures
        r@ == seq![seq!['0', '1', '2', '3', '4', '5', '6', '7', '8', '9'][d as int]],
{
    if d == 0 {
        proof {
            reveal_strlit("0");
        }
        "0"
    } else if d == 1 {
        proof {
            reveal_strlit("1");
        }
        "1"
    } else if d == 2 {
        proof {
            reveal_strlit("2");
        }
        "2"
    } else if d == 3 {
        proof {
            reveal_strlit("3");
        }
        "3"
    } else if d == 4 {
        proof {
            reveal_strlit("4");
        }
        "4"
    } else if d == 5 {
        proof {
            reveal_strlit("5");
        }
        "5"
    } else if d == 6 {
        proof {
            reveal_strlit("6");
        }
        "6"
    } else if d == 7 {
        proof {
            reveal_strlit("7");
        }
        "7"
    } else if d == 8 {
        proof {
            reveal_strlit("8");
        }
        "8"
    } else {
        proof {
            reveal_strlit("9");
        }
        "9"
    }
}

/// Appends the decimal digits of `n` to `s`.
fn append_decimal(s: &mut String, n: u64)
    ensures
        final(s)@ == old(s)@ + decimal(n as nat),
    decreases n,
{
    if n >= 10 {
        append_decimal(s, n / 10);
    }
    s.append(digit_text(n % 10));
    proof {
        if n >= 10 {
            assert(final(s)@ =~= old(s)@ + decimal(n as nat));
        } else {
            assert(final(s)@ =~= old(s)@ + decimal(n as nat));
        }
    }
}

/// The number of decimal digits of `n`.
fn decimal_len(n: u64) -> (r: usize)
    ensures
        r == decimal(n as nat).len(),
    decreases n,
{
    if n < 10 {
        1
    } else {
        let k = decimal_len(n / 10);
        proof {
            reveal_with_fuel(pow10, 20);
            assert(pow10(19) == 10_000_000_000_000_000_000nat);
            lemma_decimal_len_small((n / 10) as nat, 19);
        }
        k + 1
    }
}

proof fn lemma_decimal_len_small(n: nat, k: nat)
    requires
        n < pow10(k),
        k >= 1,
    ensures
        decimal(n).len() <= k,
    decreases n,
{
    if n >= 10 {
        let p = pow10((k - 1) as nat);
        if k == 1 {
            assert(pow10(0) == 1);
        }
        assert(pow10(k) == 10 * p);
        assert(n / 10 < p) by (nonlinear_arith)
            requires
                n < 10 * p,
        ;
        lemma_decimal_len_small(n / 10, (k - 1) as nat);
    }
}

spec fn pow10(k: nat) -> nat
    decreases k,
{
    if k == 0 {
        1
    } else {
        10 * pow10((k - 1) as nat)
    }
}

/// Appends `n` in decimal, padded with leading zeros to `width` digits.
fn append_zero_padded(s: &mut String, n: u64, width: usize)
    ensures
        final(s)@ == old(s)@ + zero_padded(n as nat, width as nat),
{
    let len = decimal_len(n);
    let ghost start = s@;
    if len < width {
        let mut i: usize = len;
        while i < width
            invariant
                len <= i <= width,
                s@ == start + Seq::new((i - len) as nat, |k: int| '0'),
            decreases width - i,
        {
            let ghost before = s@;
            proof {
                reveal_strlit("0");
            }
            s.append("0");
            i = i + 1;
            assert(s@ =~= start + Seq::new((i - len) as nat, |k: int| '0'));
        }
    }
    let ghost padded = s@;
    append_decimal(s, n);
    assert(s@ =~= start + zero_padded(n as nat, width as nat));
}

fn frame_dir_name(frame_index: u32) -> (r: String)
    ensures
        r@ == frame_dir_spec(frame_index as nat),
{
    let mut s = String::from_str("frame_");
    append_zero_padded(&mut s, frame_index as u64, 8);
    s.append("_output");
    s
}

fn debug_file_name(step_number: usize, step_name: &str, frame_index: u32) -> (r: String)
    ensures
        r@ == debug_file_spec(step_number as nat, step_name@, frame_index as nat),
{
    let mut s = String::from_str("debug_step_");
    append_decimal(&mut s, step_number as u64);
    s.append("_");
    s.append(step_name);
    s.append("_");
    append_zero_padded(&mut s, frame_index as u64, 8);
    s.append(".png");
    s
}

fn final_file_name(frame_index: u32) -> (r: String)
    ensures
        r@ == final_file_spec(frame_index as nat),
{
    let mut s = String::from_str("frame_");
    append_zero_padded(&mut s, frame_index as u64, 8);
    s.append(".png");
    s
}

/// `a` and `b` hold the same image.
pub open spec fn same_frame(a: Frame, b: Frame) -> bool {
    a.data@ == b.data@ && a.width == b.width && a.height == b.height && a.channels == b.channels
}

/// A processing step of a frame pipeline.
pub enum PipelineStep {
    GaussianBlur(GaussianBlur),
    CannyEdgeDetection(CannyEdgeDetection),
}

impl PipelineStep {
    pub open spec fn wf(&self) -> bool {
        match self {
            PipelineStep::GaussianBlur(b) => b.wf(),
            PipelineStep::CannyEdgeDetection(c) => c.wf(),
        }
    }

    pub open spec fn step_name(&self) -> Seq<char> {
        match self {
            PipelineStep::GaussianBlur(_) => "GaussianBlur"@,
            PipelineStep::CannyEdgeDetection(_) => "CannyEdgeDetection"@,
        }
    }

    /// `output` is what this step makes of `input`.
    pub open spec fn is_output(&self, input: Frame, output: Frame) -> bool {
        &&& output.is_gray_of_size(input.width as int, input.height as int)
        &&& self.transforms(input, output)
    }

    /// The image in `output` is this step's transform of `input`.
    #[verifier::opaque]
    pub open spec fn transforms(&self, input: Frame, output: Frame) -> bool {
        match self {
            PipelineStep::GaussianBlur(b) => output.data@ == blurred(input, b.weights(), b.radius()),
            PipelineStep::CannyEdgeDetection(c) => is_edge_map_of(
                output,
                input,
                c.blur().weights(),
                c.blur().radius(),
            ),
        }
    }

    pub fn name(&self) -> (r: &'static str)
        ensures
            r@ == self.step_name(),
    {
        match self {
            PipelineStep::GaussianBlur(_) => "GaussianBlur",
            PipelineStep::CannyEdgeDetection(_) => "CannyEdgeDetection",
        }
    }

    /// Runs the step; it fails exactly on frames that are not processable.
    pub fn process(&self, frame: &Frame) -> (r: Result<Frame, StepError>)
        requires
            self.wf(),
        ensures
            r is Ok <==> is_processable(*frame),
            r is Err ==> is_rejection(*frame, r->Err_0),
            r is Ok ==> self.is_output(*frame, r->Ok_0),
    {
        let r = match self {
            PipelineStep::GaussianBlur(b) => match b.process(frame) {
                Ok(f) => Ok(f),
                Err(e) => Err(StepError::Blur(e)),
            },
            PipelineStep::CannyEdgeDetection(c) => c.process(frame),
        };
        proof {
            reveal(PipelineStep::transforms);
        }
        r
    }
}

/// An image to be written into a frame's directory.
pub struct SavedImage {
    pub file_name: String,
    pub frame: Frame,
}

/// What running the steps on one frame gave: the directory for its images,
/// each step's output, the images to write in order, and the final frame or
/// the first error.
pub struct FrameRun {
    pub frame_dir: String,
    pub stages: Vec<Frame>,
    pub saves: Vec<SavedImage>,
    pub result: Result<Frame, StepError>,
}

/// Runs an ordered sequence of steps over frames.
pub struct FramePipeline {
    steps: Vec<PipelineStep>,
    output_dir: String,
    debug: bool,
}

impl FramePipeline {
    pub closed spec fn wf(&self) -> bool {
        forall|i: int| 0 <= i < self.steps@.len() ==> #[trigger] self.steps@[i].wf()
    }

    pub closed spec fn step_list(&self) -> Seq<PipelineStep> {
        self.steps@
    }

    pub closed spec fn is_debug(&self) -> bool {
        self.debug
    }

    pub closed spec fn directory(&self) -> Seq<char> {
        self.output_dir@
    }

    /// A pipeline with no steps and debug output off, writing under
    /// `output_dir` (which the caller prepares).
    pub fn new(output_dir: &str) -> (r: FramePipeline)
        ensures
            r.wf(),
            r.step_list().len() == 0,
            !r.is_debug(),
            r.directory() == output_dir@,
    {
        FramePipeline { steps: Vec::new(), output_dir: output_dir.to_owned(), debug: false }
    }

    pub fn add_step(&mut self, step: PipelineStep)
        requires
            old(self).wf(),
            step.wf(),
        ensures
            final(self).wf(),
            final(self).step_list() == old(self).step_list().push(step),
            final(self).is_debug() == old(self).is_debug(),
            final(self).directory() == old(self).directory(),
    {
        self.steps.push(step);
        assert forall|i: int| 0 <= i < self.steps@.len() implies #[trigger] self.steps@[i].wf() by {
            if i < old(self).steps@.len() {
                assert(self.steps@[i] == old(self).steps@[i]);
            }
        }
    }

    pub fn set_debug(&mut self, debug: bool)
        ensures
            final(self).wf() == old(self).wf(),
            final(self).step_list() == old(self).step_list(),
            final(self).is_debug() == debug,
            final(self).directory() == old(self).directory(),
    {
        self.debug = debug;
        assert(self.steps@ == old(self).steps@);
    }

    pub fn output_dir(&self) -> (r: &str)
        ensures
            r@ == self.directory(),
    {
        self.output_dir.as_str()
    }

    /// Runs the frame through every step in order, each taking the previous
    /// one's output, and stops at the first error. With debug on, each
    /// step's output is to be saved as `debug_step_{n}_{name}_{index:08}.png`;
    /// a successful run's result is always to be saved as
    /// `frame_{index:08}.png`, in the directory `frame_{index:08}_output`.
    pub fn process_frame(&self, frame: &Frame, frame_index: u32) -> (run: FrameRun)
        requires
            self.wf(),
        ensures
            run.frame_dir@ == frame_dir_spec(frame_index as nat),
            run.result is Ok <==> self.step_list().len() == 0 || is_processable(*frame),
            run.result is Ok ==> run.stages@.len() == self.step_list().len(),
            run.result is Err ==> run.stages@.len() == 0,
            run.result is Err ==> self.step_list().len() > 0 && is_rejection(*frame, run.result->Err_0),
            forall|i: int|
                0 <= i < run.stages@.len() ==> self.step_list()[i].is_output(
                    if i == 0 {
                        *frame
                    } else {
                        run.stages@[i - 1]
                    },
                    #[trigger] run.stages@[i],
                ),
            run.result is Ok ==> same_frame(
                run.result->Ok_0,
                if run.stages@.len() == 0 {
                    *frame
                } else {
                    run.stages@.last()
                },
            ),
            run.saves@.len() == (if self.is_debug() {
                run.stages@.len() as int
            } else {
                0int
            }) + (if run.result is Ok {
                1int
            } else {
                0int
            }),
            self.is_debug() ==> forall|i: int|
                0 <= i < run.stages@.len() ==> (#[trigger] run.saves@[i]).file_name@ == debug_file_spec(
                    (i + 1) as nat,
                    self.step_list()[i].step_name(),
                    frame_index as nat,
                ) && same_frame(run.saves@[i].frame, run.stages@[i]),
            run.result is Ok ==> run.saves@.last().file_name@ == final_file_spec(frame_index as nat)
                && same_frame(run.saves@.last().frame, run.result->Ok_0),
    {
        let frame_dir = frame_dir_name(frame_index);
        let mut stages: Vec<Frame> = Vec::new();
        let mut saves: Vec<SavedImage> = Vec::new();
        let n = self.steps.len();
        let mut i: usize = 0;
        while i < n
            invariant
                self.wf(),
                frame_dir@ == frame_dir_spec(frame_index as nat),
                n == self.steps@.len(),
                i <= n,
                stages@.len() == i,
                i > 0 ==> is_processable(stages@[i - 1]),
                forall|j: int|
                    0 <= j < i ==> self.steps@[j].is_output(
                        if j == 0 {
                            *frame
                        } else {
                            stages@[j - 1]
                        },
                        #[trigger] stages@[j],
                    ),
                saves@.len() == if self.debug {
                    i as int
                } else {
                    0int
                },
                self.debug ==> forall|j: int|
                    0 <= j < i ==> (#[trigger] saves@[j]).file_name@ == debug_file_spec(
                        (j + 1) as nat,
                        self.steps@[j].step_name(),
                        frame_index as nat,
                    ) && same_frame(saves@[j].frame, stages@[j]),
                i > 0 ==> is_processable(*frame),
            decreases n - i,
        {
            let step = &self.steps[i];
            let result = if i == 0 {
                step.process(frame)
            } else {
                step.process(&stages[i - 1])
            };
            let next = match result {
                Ok(f) => f,
                Err(e) => {
                    assert(i == 0);
                    return FrameRun { frame_dir, stages: Vec::new(), saves: Vec::new(), result: Err(e) };
                },
            };
            let ghost pre_stages = stages@;
            let ghost pre_saves = saves@;
            if self.debug {
                let name = debug_file_name(i + 1, step.name(), frame_index);
                saves.push(SavedImage { file_name: name, frame: next.duplicate() });
            }
            stages.push(next);
            proof {
                assert forall|j: int| 0 <= j < i + 1 implies self.steps@[j].is_output(
                    if j == 0 {
                        *frame
                    } else {
                        stages@[j - 1]
                    },
                    #[trigger] stages@[j],
                ) by {
                    if j < i {
                        assert(stages@[j] == pre_stages[j]);
                    }
                    if 0 < j {
                        assert(stages@[j - 1] == pre_stages[j - 1]);
                    }
                }
                if self.debug {
                    assert forall|j: int| 0 <= j < i + 1 implies (#[trigger] saves@[j]).file_name@
                        == debug_file_spec(
                        (j + 1) as nat,
                        self.steps@[j].step_name(),
                        frame_index as nat,
                    ) && same_frame(saves@[j].frame, stages@[j]) by {
                        if j < i {
                            assert(saves@[j] == pre_saves[j]);
                            assert(stages@[j] == pre_stages[j]);
                        }
                    }
                }
                let cur = stages@[i as int];
                assert(cur.data@.len() == cur.width * cur.height);
                assert(cur.width * cur.height > 0) by (nonlinear_arith)
                    requires
                        cur.width > 0,
                        cur.height > 0,
                ;
            }
            i = i + 1;
        }
        let last = if n == 0 {
            frame.duplicate()
        } else {
            stages[n - 1].duplicate()
        };
        saves.push(SavedImage { file_name: final_file_name(frame_index), frame: last.duplicate() });
        FrameRun { frame_dir, stages, saves, result: Ok(last) }
    }
}

} // verus!
