use vstd::prelude::*;

verus! {

/// Decides whether the domain given with HELO is acceptable.
pub trait HeloValidator {
    fn valid(&self, domain: &str) -> bool;
}

/// Accepts every domain.
#[derive(Debug, Default)]
pub struct NoopValidator;

impl HeloValidator for NoopValidator {
    fn valid(&self, domain: &str) -> (r: bool)
        ensures
            r,
    {
        true
    }
}

} // verus!
