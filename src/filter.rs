use vstd::prelude::*;

use crate::history::HistLine;
use crate::text::{contains, parse_usize, parsed_usize, str_contains};

verus! {

/// Which field of a history line a filter text looks at.
#[derive(Debug, PartialEq, Eq, Structural, Clone, Copy)]
pub enum FilterCat {
    Host,
    Code,
    Source,
    Path,
}

impl FilterCat {
    pub fn from_filtercat(f: &FilterCat) -> (r: FilterCat)
        ensures
            r == *f,
    {
        match f {
            FilterCat::Host => FilterCat::Host,
            FilterCat::Code => FilterCat::Code,
            FilterCat::Source => FilterCat::Source,
            FilterCat::Path => FilterCat::Path,
        }
    }

    pub fn from_filtercat_opt(o: &Option<FilterCat>) -> (r: Option<FilterCat>)
        ensures
            r == *o,
    {
        match o {
            None => None,
            Some(f) => Some(Self::from_filtercat(f)),
        }
    }
}

/// Whether `h` passes filter text `f` on field `cat`: the host (also when no
/// field is chosen), the source address or the path holds the text, or the
/// status code equals the number the text reads as. No text keeps all.
pub open spec fn line_matches(h: HistLine, f: Option<Seq<char>>, cat: Option<FilterCat>) -> bool {
    match f {
        None => true,
        Some(t) => match cat {
            Some(FilterCat::Code) => parsed_usize(t) == Some(h.status as nat),
            Some(FilterCat::Source) => contains(h.remote_addr@, t),
            Some(FilterCat::Path) => contains(h.uri@, t),
            _ => contains(h.host@, t),
        },
    }
}

pub open spec fn opt_view(f: Option<String>) -> Option<Seq<char>> {
    match f {
        Some(s) => Some(s@),
        None => None,
    }
}

pub fn matches_filter(h: &HistLine, f: &Option<String>, cat: &Option<FilterCat>) -> (r: bool)
    ensures
        r == line_matches(*h, opt_view(*f), *cat),
{
    match f {
        None => true,
        Some(t) => match cat {
            Some(FilterCat::Code) => match parse_usize(t.as_str()) {
                Some(v) => v == h.status,
                None => false,
            },
            Some(FilterCat::Source) => str_contains(h.remote_addr.as_str(), t.as_str()),
            Some(FilterCat::Path) => str_contains(h.uri.as_str(), t.as_str()),
            _ => str_contains(h.host.as_str(), t.as_str()),
        },
    }
}

} // verus!
