//! Decision logic of the serving layer: how a list query's filled-in
//! components select the hierarchy level to answer with, and how errors map
//! to status codes. The HTTP plumbing around it is the caller's business.

use vstd::prelude::*;

verus! {

/// How deep into the hierarchy a [`ListQuery`] reaches.
#[derive(Debug, Clone, Copy, PartialEq, Eq, Structural)]
pub enum ListQueryLevel {
    Empty,
    Country,
    City,
    Site,
    Restaurant,
}

/// A list request's query parameters; an absent component shortens the
/// query's reach.
#[derive(Debug, Clone, PartialEq)]
pub struct ListQuery {
    pub country: Option<String>,
    pub city: Option<String>,
    pub site: Option<String>,
    pub restaurant: Option<String>,
}

impl ListQuery {
    /// The level this query addresses: the deepest one whose component —
    /// and all components above it — are present.
    pub fn level(&self) -> (l: ListQueryLevel)
        ensures
            l == (if self.country is Some && self.city is Some && self.site is Some
                && self.restaurant is Some {
                ListQueryLevel::Restaurant
            } else if self.country is Some && self.city is Some && self.site is Some {
                ListQueryLevel::Site
            } else if self.country is Some && self.city is Some {
                ListQueryLevel::City
            } else if self.country is Some {
                ListQueryLevel::Country
            } else {
                ListQueryLevel::Empty
            }),
    {
        if self.country.is_some() && self.city.is_some() && self.site.is_some()
            && self.restaurant.is_some() {
            return ListQueryLevel::Restaurant;
        } else if self.country.is_some() && self.city.is_some() && self.site.is_some() {
            return ListQueryLevel::Site;
        } else if self.country.is_some() && self.city.is_some() {
            return ListQueryLevel::City;
        } else if self.country.is_some() {
            return ListQueryLevel::Country;
        }
        ListQueryLevel::Empty
    }
}

/// What can go wrong answering a request.
#[derive(Debug, Clone, Copy, PartialEq, Eq, Structural)]
pub enum Error {
    /// The request path names nothing.
    NotFound,
    /// The database failed.
    Database,
    /// Some other internal failure.
    Internal,
}

impl Error {
    /// The HTTP status code this error answers with.
    pub fn status_code(&self) -> (c: u16)
        ensures
            c == (match self {
                Error::NotFound => 404u16,
                Error::Database => 500u16,
                Error::Internal => 500u16,
            }),
    {
        match self {
            Error::NotFound => 404,
            Error::Database => 500,
            Error::Internal => 500,
        }
    }
}

/// Reject the nil identifier before touching the store: a zero identifier
/// in a request path is "not found", never a lookup.
pub fn check_id(id: u128) -> (r: Result<(), Error>)
    ensures
        r is Err <==> id == 0,
        r matches Err(e) ==> e == Error::NotFound,
{
    if id == 0 {
        return Err(Error::NotFound);
    }
    Ok(())
}

} // verus!
