//! Text measured by a function the caller supplies: one width for each text.
use vstd::prelude::*;

verus! {

/// `measure` can be called on any text and gives one width for each text.
pub open spec fn measure_fn<M: Fn(&str) -> u32>(measure: &M) -> bool {
    &&& forall|s: &str| #[trigger] measure.requires((s,))
    &&& forall|x: &str, y: &str, a: u32, b: u32|
        x@ == y@ && #[trigger] measure.ensures((x,), a) && #[trigger] measure.ensures((y,), b) ==> a == b
}

/// `measure` can give `w` for the text `s`.
pub open spec fn gives<M: Fn(&str) -> u32>(measure: &M, s: Seq<char>, w: u32) -> bool {
    exists|x: &str| x@ == s && #[trigger] measure.ensures((x,), w)
}

/// The width that `measure` gives to the text `s`.
pub open spec fn width_of<M: Fn(&str) -> u32>(measure: &M, s: Seq<char>) -> u32 {
    choose|w: u32| #[trigger] gives(measure, s, w)
}

/// What a call of `measure` gave is `width_of` its text.
pub proof fn lemma_measured<M: Fn(&str) -> u32>(measure: &M, x: &str, w: u32)
    requires
        measure_fn(measure),
        measure.ensures((x,), w),
    ensures
        w == width_of(measure, x@),
{
    assert(gives(measure, x@, w));
    let c = width_of(measure, x@);
    assert(gives(measure, x@, c));
    let y = choose|y: &str| y@ == x@ && #[trigger] measure.ensures((y,), c);
    assert(measure.ensures((y,), c));
}

/// Calls `measure` on `s`: its width.
pub fn measure_text<M: Fn(&str) -> u32>(measure: &M, s: &str) -> (w: u32)
    requires
        measure_fn(measure),
    ensures
        w == width_of(measure, s@),
{
    let w = measure(s);
    proof {
        lemma_measured(measure, s, w);
    }
    w
}


/// `f` can be called on any number and gives one result for each.
pub open spec fn size_fn<P: Fn(u32) -> u32>(f: &P) -> bool {
    &&& forall|w: u32| #[trigger] f.requires((w,))
    &&& forall|w: u32, a: u32, b: u32| #[trigger] f.ensures((w,), a) && #[trigger] f.ensures((w,), b) ==> a == b
}

/// What `f` gives for `w`.
pub open spec fn size_of<P: Fn(u32) -> u32>(f: &P, w: u32) -> u32 {
    choose|h: u32| #[trigger] f.ensures((w,), h)
}

/// Calls `f` on `w`.
pub fn call_size<P: Fn(u32) -> u32>(f: &P, w: u32) -> (h: u32)
    requires
        size_fn(f),
    ensures
        h == size_of(f, w),
{
    let h = f(w);
    proof {
        let c = size_of(f, w);
        assert(f.ensures((w,), c));
    }
    h
}

} // verus!
