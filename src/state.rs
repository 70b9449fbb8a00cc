use crate::cursor::{Cursor, HashAndHeight};
use vstd::prelude::*;

verus! {

/// Largest block height the engine tracks as its current block, which is
/// reported as a signed 64-bit number.
pub const MAX_HEIGHT: u64 = 0x7fff_ffff_ffff_ffff;

/// The most recently emitted block of a subscription, if any.
#[derive(Debug)]
pub struct State {
    pub last: Option<HashAndHeight>,
}

pub type StateView = Option<(u64, Seq<char>)>;

impl View for State {
    type V = StateView;

    open spec fn view(&self) -> StateView {
        match self.last {
            Some(h) => Some(h@),
            None => None,
        }
    }
}

/// The next height to deliver: one past the last emitted block, or 0.
pub open spec fn next_block_of(s: StateView) -> int {
    match s {
        Some(h) => h.0 + 1,
        None => 0,
    }
}

/// Height of the last emitted block, or -1 when none was.
pub open spec fn current_block_of(s: StateView) -> int {
    match s {
        Some(h) => h.0 as int,
        None => -1,
    }
}

impl State {
    pub open spec fn wf(&self) -> bool {
        self.last matches Some(h) ==> h.height <= MAX_HEIGHT
    }

    pub fn new() -> (r: State)
        ensures
            r@ is None,
            r.wf(),
    {
        State { last: None }
    }

    pub fn next_block(&self) -> (r: u64)
        requires
            self@ matches Some(h) ==> h.0 < u64::MAX,
        ensures
            r == next_block_of(self@),
    {
        match &self.last {
            Some(value) => value.height + 1,
            None => 0,
        }
    }

    pub fn current_block(&self) -> (r: i64)
        requires
            self.wf(),
        ensures
            r == current_block_of(self@),
    {
        match &self.last {
            Some(value) => value.height as i64,
            None => -1,
        }
    }

    /// The cursor after the last emitted block, with that block standing for
    /// the finalized head as well.
    pub fn cursor(&self) -> (r: Cursor)
        requires
            self@ is Some,
        ensures
            r@ == (self@->0, self@->0),
    {
        match &self.last {
            Some(value) => Cursor::new(value.duplicate(), value.duplicate()),
            None => {
                proof {
                    assert(false);
                }
                Cursor::new(HashAndHeight::new(0, String::new()), HashAndHeight::new(0, String::new()))
            },
        }
    }

    pub fn update(&mut self, value: HashAndHeight)
        ensures
            final(self)@ == Some(value@),
            final(self).wf() <==> value.height <= MAX_HEIGHT,
    {
        self.last = Some(value);
    }

    /// The state a subscription resumes from: the cursor's last block.
    pub fn from_cursor(value: Cursor) -> (r: State)
        ensures
            r@ == Some(value@.0),
            r.wf() <==> value.block.height <= MAX_HEIGHT,
    {
        State { last: Some(value.block) }
    }

    /// The last emitted block.
    pub fn into_head(self) -> (r: HashAndHeight)
        requires
            self@ is Some,
        ensures
            r@ == self@->0,
    {
        match self.last {
            Some(h) => h,
            None => {
                proof {
                    assert(false);
                }
                HashAndHeight::new(0, String::new())
            },
        }
    }
}

} // verus!
