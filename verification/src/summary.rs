use vstd::prelude::*;
use crate::bootstrap::{BootstrapResult, BootstrapStatistic};

verus! {

/// Anything that can be reduced into a summary of the given shape. The
/// replica reducer that fills the summary works on the numeric components of
/// a statistic, so it lives with the statistic instances; implementations
/// reduce a finished bootstrap result into per-component summary statistics.
pub trait Summarizable<SummaryType> {
    fn summarize(self) -> SummaryType;
}

/// Reorder equally long sample-major rows into component-major columns, so
/// that each component of a vector statistic can be reduced on its own.
pub fn transpose<T: Copy>(rows: &Vec<Vec<T>>, width: usize) -> (cols: Vec<Vec<T>>)
    requires
        forall|i: int| 0 <= i < rows@.len() ==> (#[trigger] rows@[i])@.len() == width,
    ensures
        cols@.len() == width,
        forall|j: int| 0 <= j < width ==> (#[trigger] cols@[j])@.len() == rows@.len(),
        forall|j: int, i: int|
            0 <= j < width && 0 <= i < rows@.len() ==> #[trigger] cols@[j]@[i] == rows@[i]@[j],
{
    let mut cols: Vec<Vec<T>> = Vec::with_capacity(width);
    let mut j: usize = 0;
    while j < width
        invariant
            j <= width,
            cols@.len() == j,
            forall|ii: int| 0 <= ii < rows@.len() ==> (#[trigger] rows@[ii])@.len() == width,
            forall|jj: int| 0 <= jj < j ==> (#[trigger] cols@[jj])@.len() == rows@.len(),
            forall|jj: int, i: int|
                0 <= jj < j && 0 <= i < rows@.len() ==> #[trigger] cols@[jj]@[i] == rows@[i]@[jj],
        decreases width - j,
    {
        let mut col: Vec<T> = Vec::with_capacity(rows.len());
        let mut i: usize = 0;
        while i < rows.len()
            invariant
                i <= rows@.len(),
                j < width,
                col@.len() == i,
                forall|ii: int| 0 <= ii < rows@.len() ==> (#[trigger] rows@[ii])@.len() == width,
                forall|ii: int| 0 <= ii < i ==> #[trigger] col@[ii] == rows@[ii]@[j as int],
            decreases rows@.len() - i,
        {
            col.push(rows[i][j]);
            i += 1;
        }
        cols.push(col);
        j += 1;
    }
    cols
}

impl<T: BootstrapStatistic> BootstrapResult<T> {
    /// The central value of a run, or, where the run could not produce one,
    /// the zero statistic in the shape of the replicas (a single component
    /// when there is no replica to take the shape from).
    pub fn central_or_default(self) -> (r: (T, Vec<T>))
        ensures
            self.central_val is Some ==> r.0 == self.central_val.unwrap(),
            self.central_val is None ==> r.0 == T::spec_zero(
                if self.samples@.len() > 0 {
                    self.samples@[0].spec_len()
                } else {
                    1
                },
            ),
            r.1@ == self.samples@,
    {
        let samples = self.samples;
        match self.central_val {
            Some(v) => (v, samples),
            None => {
                let len = if samples.len() > 0 {
                    samples[0].len()
                } else {
                    1
                };
                (T::zero(len), samples)
            },
        }
    }
}

} // verus!
