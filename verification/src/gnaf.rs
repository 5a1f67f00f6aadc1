//! The national address dataset of Australia: an address-point index whose
//! units a search leaves open.
use vstd::prelude::*;
use crate::address_points::{match_view, AddressMatch, AddressPointIndex, AddressQuery};
use crate::ieee::Candidate;
use crate::openaddresses::nearest_in;
use crate::text::opt_str_view;

verus! {

/// An open dataset.
#[derive(Clone, Copy)]
pub struct Gnaf<'a> {
    pub inner: AddressPointIndex<'a>,
}

impl<'a> Gnaf<'a> {
    /// Finds an address among the points of a scan, whatever its unit.
    pub fn find_by_housenumber(
        &self,
        housenumber: &str,
        street_hint: Option<&str>,
        near: &[Candidate],
    ) -> (r: Option<AddressMatch<'a>>)
        ensures
            match_view(r) == self.inner.search_result(
                (AddressQuery {
                    housenumber: housenumber@,
                    street: opt_str_view(street_hint),
                    unit: None,
                }),
                near@,
            ),
    {
        self.inner.find_by_housenumber(housenumber, street_hint, None, near)
    }

    /// Finds the nearest address among the points of a scan.
    pub fn find_nearest(&self, near: &[Candidate]) -> (r: Option<AddressMatch<'a>>)
        ensures
            match_view(r) == nearest_in(self.inner, near@),
    {
        self.inner.find_nearest(near)
    }
}

} // verus!
