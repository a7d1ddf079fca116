use vstd::prelude::*;

use crate::frame::Frame;

verus! {

/// Edge confidence of a pixel after double thresholding.
#[derive(Clone, Copy, Debug, PartialEq, Eq, Structural)]
pub enum Strength {
    Strong,
    Weak,
    Suppressed,
}

/// A pixel's classification together with the value that produced it.
#[derive(Clone, Copy, Debug, PartialEq, Eq, Structural)]
pub struct MeasuredPixel {
    pub weight: Strength,
    pub value: i32,
}

/// The thresholds were given out of order.
#[derive(Clone, Copy, Debug, PartialEq, Eq, Structural)]
pub enum ThresholdError {
    /// `min` is not below `max`.
    InvalidOrder,
}

/// Classifies pixels by two thresholds, `min < max`.
#[derive(Clone, Copy, Debug)]
pub struct DoubleThresholder {
    pub min: i32,
    pub max: i32,
}

/// `value <= min` is suppressed, `value >= max` is strong, anything between is weak.
pub open spec fn classify(value: int, min: int, max: int) -> Strength {
    if value <= min {
        Strength::Suppressed
    } else if value >= max {
        Strength::Strong
    } else {
        Strength::Weak
    }
}

/// A dense grid with `height` rows of `width` cells each.
pub open spec fn is_grid_of_size<T>(g: Seq<Vec<T>>, width: int, height: int) -> bool {
    &&& g.len() == height
    &&& forall|y: int| 0 <= y < height ==> #[trigger] g[y]@.len() == width
}

impl DoubleThresholder {
    /// Builds a thresholder; fails unless `min < max`.
    pub fn new(min: i32, max: i32) -> (r: Result<DoubleThresholder, ThresholdError>)
        ensures
            min < max <==> r is Ok,
            r is Ok ==> r->Ok_0.min == min && r->Ok_0.max == max,
            r is Err ==> r->Err_0 == ThresholdError::InvalidOrder,
    {
        if min < max {
            Ok(DoubleThresholder { min, max })
        } else {
            Err(ThresholdError::InvalidOrder)
        }
    }

    /// Classifies every pixel of `frame` by its first channel; a pixel that
    /// cannot be read counts as value 0.
    pub fn threshold(&self, frame: Frame) -> (r: Vec<Vec<MeasuredPixel>>)
        ensures
            is_grid_of_size(
                r@,
                if frame.width > 0 { frame.width as int } else { 0 },
                if frame.height > 0 { frame.height as int } else { 0 },
            ),
            forall|x: int, y: int|
                0 <= x < frame.width && 0 <= y < frame.height ==> {
                    &&& (#[trigger] r@[y]@[x]).value == frame.value_at(x, y)
                    &&& r@[y]@[x].weight == classify(
                        frame.value_at(x, y),
                        self.min as int,
                        self.max as int,
                    )
                },
    {
        let height: i32 = if frame.height > 0 { frame.height } else { 0 };
        let width: i32 = if frame.width > 0 { frame.width } else { 0 };
        let mut result: Vec<Vec<MeasuredPixel>> = Vec::new();
        let mut y: i32 = 0;
        while y < height
            invariant
                0 <= y <= height,
                height == (if frame.height > 0 { frame.height as int } else { 0 }),
                width == (if frame.width > 0 { frame.width as int } else { 0 }),
                is_grid_of_size(result@, width as int, y as int),
                forall|x: int, yy: int|
                    0 <= x < width && 0 <= yy < y ==> {
                        &&& (#[trigger] result@[yy]@[x]).value == frame.value_at(x, yy)
                        &&& result@[yy]@[x].weight == classify(
                            frame.value_at(x, yy),
                            self.min as int,
                            self.max as int,
                        )
                    },
            decreases height - y,
        {
            let mut row: Vec<MeasuredPixel> = Vec::new();
            let mut x: i32 = 0;
            while x < width
                invariant
                    0 <= x <= width,
                    0 <= y < height,
                    height == (if frame.height > 0 { frame.height as int } else { 0 }),
                    width == (if frame.width > 0 { frame.width as int } else { 0 }),
                    row@.len() == x,
                    forall|xx: int|
                        0 <= xx < x ==> {
                            &&& (#[trigger] row@[xx]).value == frame.value_at(xx, y as int)
                            &&& row@[xx].weight == classify(
                                frame.value_at(xx, y as int),
                                self.min as int,
                                self.max as int,
                            )
                        },
                decreases width - x,
            {
                let pixel: i32 = match frame.get_pixel(x, y) {
                    Some((v, _, _)) => v,
                    None => 0,
                };
                let weight = if pixel <= self.min {
                    Strength::Suppressed
                } else if pixel >= self.max {
                    Strength::Strong
                } else {
                    Strength::Weak
                };
                row.push(MeasuredPixel { weight, value: pixel });
                x = x + 1;
            }
            result.push(row);
            y = y + 1;
        }
        result
    }
}

} // verus!
