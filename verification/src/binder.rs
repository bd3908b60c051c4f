//! The parameter binder for path captures: every captured raw value must decode to the type
//! declared for it, or the whole candidate is turned down.

use vstd::prelude::*;
use crate::error::BindMismatch;
use crate::matcher::{Capture, CaptureView};
use crate::text::views;
use crate::value::{bind_value, bound, decoded, Value, ValueView};

verus! {

/// The values that the captures decode to, in order, if every one of them decodes.
pub open spec fn bound_all(captures: Seq<CaptureView>) -> Option<Seq<ValueView>> {
    if forall|i: int| 0 <= i < captures.len() ==> (#[trigger] bound(captures[i].ty, captures[i].value)) is Some {
        Some(Seq::new(captures.len(), |i: int| bound(captures[i].ty, captures[i].value)->0))
    } else {
        None
    }
}

/// The values of a binding, seen as model values: `None` stands for a mismatch.
pub open spec fn value_views(r: Result<Vec<Value>, BindMismatch>) -> Option<Seq<ValueView>> {
    match r {
        Ok(values) => Some(views(values@)),
        Err(_) => None,
    }
}

/// One capture that does not decode turns the whole candidate down, whatever the others
/// decode to.
pub proof fn lemma_one_mismatch_rejects(captures: Seq<CaptureView>, i: int)
    requires
        0 <= i < captures.len(),
        bound(captures[i].ty, captures[i].value) is None,
    ensures
        bound_all(captures) is None,
{
}

/// Decoding the same captures twice gives the same values.
pub proof fn lemma_binding_is_repeatable(
    captures: Seq<CaptureView>,
    first: Option<Seq<ValueView>>,
    second: Option<Seq<ValueView>>,
)
    requires
        first == bound_all(captures),
        second == bound_all(captures),
    ensures
        first == second,
{
}

/// Decodes every capture to its declared type.
pub fn bind_captures(captures: &Vec<Capture<'_>>) -> (r: Result<Vec<Value>, BindMismatch>)
    ensures
        value_views(r) == bound_all(views(captures@)),
{
    let ghost all = views(captures@);
    let mut values: Vec<Value> = Vec::new();
    let mut i: usize = 0;
    while i < captures.len()
        invariant
            i <= captures.len(),
            all == views(captures@),
            values.len() == i,
            forall|k: int|
                0 <= k < i ==> (#[trigger] bound(all[k].ty, all[k].value)) == Some(values@[k]@),
        decreases captures.len() - i,
    {
        let r = bind_value(captures[i].ty, captures[i].value.as_str());
        assert(decoded(r) == bound(all[i as int].ty, all[i as int].value));
        match r {
            Ok(value) => {
                values.push(value);
            },
            Err(e) => {
                return Err(e);
            },
        }
        i += 1;
    }
    proof {
        assert(views(values@) =~= bound_all(all)->0);
    }
    Ok(values)
}

} // verus!
