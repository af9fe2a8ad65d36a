//! What a run is asked to do.

use vstd::prelude::*;
use crate::shape::{ShapeType, MAX_DIM};

verus! {

/// The settings of one run.
#[derive(Debug)]
pub struct Config {
    /// The path of the image to approximate.
    pub in_path: String,
    /// The path of the output.
    pub out_path: String,
    /// The number of shapes to stamp.
    pub num_shapes: u32,
    /// The family of the shapes.
    pub shape_type: ShapeType,
    /// The greater side of the output, in pixels.
    pub out_size: usize,
    /// The alpha at which shapes are stamped.
    pub alpha: u8,
    /// The number of runs of the search in each step.
    pub m: u8,
}

/// What is wrong with the settings asked for.
#[derive(Debug, Clone, Copy, PartialEq, Eq, Structural)]
pub enum ConfigError {
    /// No shape is asked for.
    NumShapes,
    /// The output has no pixel, or a side longer than a canvas may have.
    OutputSize,
    /// The alpha is zero.
    Alpha,
    /// The quality is none of 1, 2, 3 and 4.
    Quality,
}

impl Config {
    /// The number of runs of the search that the quality `quality` stands
    /// for: 1, 8, 16 and 32 for the qualities 1 to 4.
    pub open spec fn spec_runs(quality: u8) -> Option<u8> {
        if quality == 1 {
            Some(1u8)
        } else if quality == 2 {
            Some(8u8)
        } else if quality == 3 {
            Some(16u8)
        } else if quality == 4 {
            Some(32u8)
        } else {
            None
        }
    }

    /// The number of runs of the search that the quality `quality` stands
    /// for, if it is a quality.
    pub fn runs(quality: u8) -> (m: Option<u8>)
        ensures
            m == Config::spec_runs(quality),
    {
        if quality == 1 {
            Some(1)
        } else if quality == 2 {
            Some(8)
        } else if quality == 3 {
            Some(16)
        } else if quality == 4 {
            Some(32)
        } else {
            None
        }
    }

    /// What is wrong with the given settings, the first of the faults in
    /// the order of `ConfigError`, or `None` where they are in order.
    pub open spec fn fault(num_shapes: u32, out_size: usize, alpha: u8, quality: u8) -> Option<
        ConfigError,
    > {
        if num_shapes == 0 {
            Some(ConfigError::NumShapes)
        } else if out_size == 0 || out_size > MAX_DIM {
            Some(ConfigError::OutputSize)
        } else if alpha == 0 {
            Some(ConfigError::Alpha)
        } else if Config::spec_runs(quality).is_none() {
            Some(ConfigError::Quality)
        } else {
            None
        }
    }

    /// The settings of a run, where they are in order: one shape at least,
    /// an output of one pixel at least and of no more than `MAX_DIM` on
    /// its greater side, an alpha that is not zero, and a quality of 1 to 4.
    pub fn new(
        in_path: String,
        out_path: String,
        num_shapes: u32,
        shape_type: ShapeType,
        out_size: usize,
        alpha: u8,
        quality: u8,
    ) -> (r: Result<Config, ConfigError>)
        ensures
            match r {
                Ok(c) => {
                    &&& Config::fault(num_shapes, out_size, alpha, quality).is_none()
                    &&& c.in_path == in_path
                    &&& c.out_path == out_path
                    &&& c.num_shapes == num_shapes
                    &&& c.shape_type == shape_type
                    &&& c.out_size == out_size
                    &&& c.alpha == alpha
                    &&& Some(c.m) == Config::spec_runs(quality)
                },
                Err(e) => Config::fault(num_shapes, out_size, alpha, quality) == Some(e),
            },
    {
        if num_shapes == 0 {
            return Err(ConfigError::NumShapes);
        }
        if out_size == 0 || out_size > MAX_DIM {
            return Err(ConfigError::OutputSize);
        }
        if alpha == 0 {
            return Err(ConfigError::Alpha);
        }
        match Config::runs(quality) {
            Some(m) => Ok(Config { in_path, out_path, num_shapes, shape_type, out_size, alpha, m }),
            None => Err(ConfigError::Quality),
        }
    }
}

} // verus!
