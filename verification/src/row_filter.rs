//! Filters that are evaluated while rows are decoded.

use vstd::prelude::*;

verus! {

/// Builds row filters from a predicate.
///
/// A filter is used up by the decoder that it is given to, so each decoder needs
/// one of its own. The first is built at once.
pub struct RowFilterGenerator<F, B> {
    /// Builds a filter. `None` where there is no predicate.
    build_filter: Option<B>,
    /// The first filter, until it is handed out.
    first_row_filter: Option<F>,
}

/// What a built filter comes to: one that could not be built is left out, since the
/// predicate is still evaluated on the rows that were read.
pub open spec fn usable<F, E>(built: Result<Option<F>, E>) -> Option<F> {
    match built {
        Ok(filter) => filter,
        Err(_) => None,
    }
}

/// Whether `filter` is what building a filter may come to.
pub open spec fn built_by<F, E, B>(build_filter: Option<B>, filter: Option<F>) -> bool where
    B: Fn() -> Result<Option<F>, E>,
 {
    match build_filter {
        Some(build_filter) => exists|built: Result<Option<F>, E>| #[trigger]
            call_ensures(build_filter, (), built) && filter == usable(built),
        None => filter is None,
    }
}

/// Builds a filter, where there is a predicate.
fn build<F, E, B>(build_filter: &Option<B>) -> (filter: Option<F>) where
    B: Fn() -> Result<Option<F>, E>,

    requires
        build_filter matches Some(build_filter) ==> call_requires(build_filter, ()),
    ensures
        built_by::<F, E, B>(*build_filter, filter),
{
    match build_filter {
        Some(build_filter) => match build_filter() {
            Ok(filter) => filter,
            Err(_) => None,
        },
        None => None,
    }
}

impl<F, B> RowFilterGenerator<F, B> {
    /// What builds the filters.
    pub closed spec fn builder(&self) -> Option<B> {
        self.build_filter
    }

    /// The filter that is handed out next without being built for it.
    pub closed spec fn first(&self) -> Option<F> {
        self.first_row_filter
    }

    /// Builds the first filter by `build_filter`, where there is one.
    pub fn new<E>(build_filter: Option<B>) -> (generator: Self) where
        B: Fn() -> Result<Option<F>, E>,

        requires
            build_filter matches Some(build_filter) ==> call_requires(build_filter, ()),
        ensures
            generator.builder() == build_filter,
            built_by::<F, E, B>(build_filter, generator.first()),
    {
        let first_row_filter = build::<F, E, B>(&build_filter);
        RowFilterGenerator { build_filter, first_row_filter }
    }

    /// Hands out the first filter, or builds another one.
    pub fn next_filter<E>(&mut self) -> (filter: Option<F>) where
        B: Fn() -> Result<Option<F>, E>,

        requires
            old(self).builder() matches Some(build_filter) ==> call_requires(build_filter, ()),
        ensures
            final(self).builder() == old(self).builder(),
            final(self).first() is None,
            match old(self).first() {
                Some(first) => filter == Some(first),
                None => built_by::<F, E, B>(old(self).builder(), filter),
            },
    {
        match self.first_row_filter.take() {
            Some(filter) => Some(filter),
            None => build::<F, E, B>(&self.build_filter),
        }
    }
}

/// A filter that could not be built is left out, without a predicate there is none, and one
/// that was built is used as it is.
pub proof fn law_filters_are_used_as_built<F, E, B>(
    build_filter: Option<B>,
    filter: Option<F>,
    expected: F,
) where
    B: Fn() -> Result<Option<F>, E>,

    requires
        built_by::<F, E, B>(build_filter, filter),
    ensures
        build_filter is None ==> filter is None,
        build_filter matches Some(build) && (forall|built: Result<Option<F>, E>| #[trigger]
            call_ensures(build, (), built) ==> built is Err) ==> filter is None,
        filter is Some ==> build_filter is Some && exists|built: Result<Option<F>, E>| #[trigger]
            call_ensures(build_filter->0, (), built) && built == Ok::<Option<F>, E>(filter),
        build_filter is Some && (forall|built: Result<Option<F>, E>| #[trigger]
            call_ensures(build_filter->0, (), built) ==> built == Ok::<Option<F>, E>(
                Some(expected),
            )) ==> filter == Some(expected),
{
}

} // verus!
