//! The output sink that `print` and `println` write to.
use vstd::prelude::*;

use crate::text::push_str;

verus! {

/// Text written by a program while it runs.
#[derive(Debug)]
pub struct OutputBuffer {
    text: String,
}

impl OutputBuffer {
    /// The text written so far.
    pub closed spec fn view(&self) -> Seq<char> {
        self.text@
    }

    pub fn new() -> (r: Self)
        ensures
            r.view() == Seq::<char>::empty(),
    {
        OutputBuffer { text: String::new() }
    }
}

/// Forgets everything written so far.
pub fn clear_output(out: &mut OutputBuffer)
    ensures
        final(out).view() == Seq::<char>::empty(),
{
    out.text = String::new();
}

/// Everything written so far.
pub fn get_output(out: &OutputBuffer) -> (r: String)
    ensures
        r@ == out.view(),
{
    out.text.clone()
}

/// Appends `text`.
pub fn add_output(out: &mut OutputBuffer, text: &str)
    ensures
        final(out).view() == old(out).view() + text@,
{
    push_str(&mut out.text, text);
}

} // verus!
