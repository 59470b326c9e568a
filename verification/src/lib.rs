//! Nonparametric resampling inference over a population of fixed size.
//!
//! A user-supplied estimator maps a multiset of sample indices to a
//! statistic. The library resamples the population index sequence under a
//! configurable strategy (`samplers`), evaluates the estimator over many
//! resamples in parallel while tolerating per-resample failure
//! (`bootstrap`), and offers the verified bookkeeping that a per-component
//! reduction of the replicas needs (`summary`). A nested resampling loop
//! inside the estimator provides first-order bias correction.
//!
//! The numeric reduction itself (means, medians, quantile intervals) works
//! on floating-point components and therefore lives with the statistic
//! instances that callers supply; everything the library states about index
//! selection, replica accounting and bias-correction control flow is proved.

pub mod bootstrap;
pub mod samplers;
pub mod summary;
