use vstd::prelude::*;

verus! {

/// Run configuration consumed by the core: window geometry, flanking cutoff,
/// sizing mode and the strand-inversion flag, together with the file-system
/// locations the surrounding program works with.
#[derive(Clone, Debug)]
pub struct Args {
    /// Path of the directory holding the methylome files.
    pub methylome: String,
    /// Path of the annotation file describing the genes.
    pub genome: String,
    /// Window size, in percent of the gene length, or in base pairs when
    /// `absolute` is set.
    pub window_size: i32,
    /// Step between the starts of consecutive windows; zero stands for
    /// "default to the window size".
    pub window_step: i32,
    /// Path of the directory where the extracted segments are stored.
    pub output_dir: String,
    /// Use absolute base-pair window sizes instead of percentages.
    pub absolute: bool,
    /// Number of base pairs considered upstream and downstream of a gene.
    pub cutoff: i32,
    /// Invert strand interpretation (swap 5' and 3').
    pub invert: bool,
}

impl Args {
    /// Geometry under which window bookkeeping is meaningful: a positive
    /// step, a non-negative window size and a non-negative cutoff.
    pub open spec fn wf(self) -> bool {
        &&& self.window_step >= 1
        &&& self.window_size >= 0
        &&& self.cutoff >= 0
    }

    /// Replaces a zero window step by the window size, the documented
    /// default; every other field is kept.
    pub fn normalized(self) -> (r: Args)
        ensures
            r.window_step == if self.window_step == 0 {
                self.window_size
            } else {
                self.window_step
            },
            r.window_size == self.window_size,
            r.cutoff == self.cutoff,
            r.absolute == self.absolute,
            r.invert == self.invert,
            r.methylome == self.methylome,
            r.genome == self.genome,
            r.output_dir == self.output_dir,
    {
        if self.window_step == 0 {
            Args { window_step: self.window_size, ..self }
        } else {
            self
        }
    }
}

} // verus!
