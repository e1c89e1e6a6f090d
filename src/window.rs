//! The application shell: a screen size and the grids drawn for it.
use vstd::prelude::*;
use crate::buffer::Buffer;

verus! {

pub struct Window {
    width: usize,
    height: usize,
    buffers: Vec<Buffer>,
}

impl Window {
    pub closed spec fn size(&self) -> (nat, nat) {
        (self.width as nat, self.height as nat)
    }

    pub closed spec fn grids(&self) -> Seq<Buffer> {
        self.buffers@
    }

    pub fn new(width: usize, height: usize) -> (w: Self)
        ensures
            w.size() == (width as nat, height as nat),
            w.grids().len() == 0,
    {
        Window { width, height, buffers: Vec::new() }
    }
}

} // verus!
