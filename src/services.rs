//! The services that hold the collaborators of a pass: the platform client,
//! the snapshot store and the notification sink. What they hold is chosen by
//! the caller; the decisions they make are in `pipeline`.
use vstd::prelude::*;

verus! {

/// Reads and refreshes the stored snapshot of an account.
pub struct DataService<P, R> {
    pub data_provider: P,
    pub data_repositories: R,
}

impl<P, R> DataService<P, R> {
    pub fn new(data_provider: P, data_repositories: R) -> (r: Self)
        ensures
            r.data_provider == data_provider,
            r.data_repositories == data_repositories,
    {
        DataService { data_provider, data_repositories }
    }
}

/// Reads and refreshes the stored grades of an account.
pub struct GradeService<R, P> {
    pub grade_repository: R,
    pub grade_provider: P,
}

impl<R, P> GradeService<R, P> {
    pub fn new(grade_repository: R, grade_provider: P) -> (r: Self)
        ensures
            r.grade_repository == grade_repository,
            r.grade_provider == grade_provider,
    {
        GradeService { grade_repository, grade_provider }
    }
}

/// Runs the change-detection passes and sends what they find.
pub struct ProducerService<E, P, D> {
    pub producer: E,
    pub data_provider: P,
    pub data_service: D,
}

impl<E, P, D> ProducerService<E, P, D> {
    pub fn new(producer: E, data_provider: P, data_service: D) -> (r: Self)
        ensures
            r.producer == producer,
            r.data_provider == data_provider,
            r.data_service == data_service,
    {
        ProducerService { producer, data_provider, data_service }
    }
}

} // verus!
