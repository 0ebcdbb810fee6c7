use vstd::prelude::*;
use crate::errors::StreamError;
use crate::playlist::{variant_views, Variant, VariantModel};

verus! {

/// A pluggable rendition-selection policy. `chooses` names, at the spec
/// level, which listed variant the policy takes, so callers' contracts can
/// pin the selected rendition; `pick` fails with `NoVariants` exactly on an
/// empty list and otherwise returns the chosen variant.
pub trait SelectionPolicy {
    /// The index this policy selects from a non-empty variant list.
    spec fn chooses(&self, variants: Seq<VariantModel>) -> int;

    fn pick(&self, variants: &Vec<Variant>) -> (r: Result<Variant, StreamError>)
        ensures
            (variants@.len() == 0) <==> (r matches Err(StreamError::NoVariants)),
            r is Err ==> r matches Err(StreamError::NoVariants),
            r matches Ok(v) ==> ({
                let i = self.chooses(variant_views(variants@));
                0 <= i < variants@.len() && v@ == variant_views(variants@)[i]
            }),
    ;
}

/// The core's selection policy: first-listed wins.
pub struct VariantSelector;

impl VariantSelector {
    /// Return the first listed variant; fail with `NoVariants` on an empty
    /// list.
    pub fn select(&self, variants: &Vec<Variant>) -> (r: Result<Variant, StreamError>)
        ensures
            (variants@.len() == 0) <==> (r matches Err(StreamError::NoVariants)),
            r is Err ==> r matches Err(StreamError::NoVariants),
            r matches Ok(v) ==> variants@.len() > 0 && v@ == variants@[0]@,
    {
        if variants.len() == 0 {
            Err(StreamError::NoVariants)
        } else {
            Ok(variants[0].clone())
        }
    }
}

impl SelectionPolicy for VariantSelector {
    /// First-listed wins.
    open spec fn chooses(&self, variants: Seq<VariantModel>) -> int {
        0
    }

    fn pick(&self, variants: &Vec<Variant>) -> (r: Result<Variant, StreamError>) {
        let r = self.select(variants);
        proof {
            if variants@.len() > 0 {
                assert(variant_views(variants@)[0] == variants@[0]@);
            }
        }
        r
    }
}

} // verus!
