//! A response body whose bytes are known up front.

use vstd::prelude::*;

verus! {

/// A body that hands out all its bytes as a single frame, then ends.
#[derive(Debug)]
pub struct StaticBody {
    data: Option<Vec<u8>>,
}

impl View for StaticBody {
    type V = Option<Seq<u8>>;

    /// The bytes not yet handed out, or `None` once they have been.
    closed spec fn view(&self) -> Option<Seq<u8>> {
        match self.data {
            Some(d) => Some(d@),
            None => None,
        }
    }
}

impl StaticBody {
    /// A body made of `data`.
    pub fn new(data: Vec<u8>) -> (res: StaticBody)
        ensures
            res@ == Some(data@),
    {
        StaticBody { data: Some(data) }
    }

    /// The next frame: all the bytes the first time, nothing afterwards.
    pub fn next_frame(&mut self) -> (res: Option<Vec<u8>>)
        ensures
            match res {
                Some(d) => old(self)@ == Some(d@),
                None => old(self)@ is None,
            },
            final(self)@ is None,
    {
        self.data.take()
    }

    /// The exact number of bytes still to come.
    pub fn size_hint(&self) -> (res: u64)
        ensures
            res == match self@ {
                Some(d) => d.len(),
                None => 0,
            },
    {
        match &self.data {
            Some(d) => d.len() as u64,
            None => 0,
        }
    }
}

} // verus!
