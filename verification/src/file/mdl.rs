//! The model container format.
//!
//! A container holds one or more models and related metadata. Its
//! structured decoding is an external collaborator of the archive layer:
//! here the container carries its bytes whole, and a model handle pairs
//! those bytes with the level of detail it was asked for.

use vstd::prelude::*;

use crate::error::Error;
use crate::stream::{FileStream, read_to_end};

verus! {

/// A level of detail a model can be fetched at.
#[derive(Debug, Clone, Copy, PartialEq, Eq, Structural)]
pub enum Lod {
    High,
    Medium,
    Low,
}

/// A model container file, holding one or more models and related
/// metadata.
#[derive(Debug)]
pub struct ModelContainer {
    file: Vec<u8>,
}

/// One model of a container, at one level of detail.
#[derive(Debug)]
pub struct Model<'a> {
    /// The container's bytes, shared with the container.
    pub file: &'a Vec<u8>,
    /// The level of detail the model was asked for.
    pub level: Lod,
}

impl ModelContainer {
    /// The container's bytes.
    pub closed spec fn spec_file(&self) -> Seq<u8> {
        self.file@
    }

    /// Read a container from everything the stream has left to offer.
    pub fn read<S: FileStream>(stream: S) -> (r: Result<ModelContainer, Error>)
        requires
            stream.inv(),
            stream.stream_pos() == 0,
        ensures
            match r {
                Ok(mc) => mc.spec_file() == stream.stream_data(),
                Err(_) => !stream.reliable(),
            },
    {
        let mut s = stream;
        let bytes = match read_to_end(&mut s) {
            Ok(v) => v,
            Err(e) => {
                return Err(e);
            },
        };
        proof {
            assert(bytes@ =~= s.stream_data());
        }
        Ok(ModelContainer { file: bytes })
    }

    /// Get the model for the specified level of detail.
    pub fn model<'a>(&'a self, level: Lod) -> (r: Model<'a>)
        ensures
            r.file@ == self.spec_file(),
            r.level == level,
    {
        Model { file: &self.file, level }
    }
}

} // verus!
