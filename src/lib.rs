//! An interpreter for the eight-instruction byte-tape language: `>` `<`
//! move the cursor round a ring of cells, `+` `-` change the cell under it
//! with wrapping arithmetic, `.` and `,` write and read bytes, and `[` `]`
//! loop while the cell under the cursor is not zero. Brackets are paired
//! once, before anything runs; every other character is a comment.
use vstd::prelude::*;

pub mod brackets;
pub mod interpreter;
pub mod machine;
pub mod tape;

verus! {

} // verus!
