use vstd::prelude::*;
use vstd::string::StrSliceExecFns;
use vstd::string::StringExecFns;

use crate::arguments::Args;
use crate::genes::Gene;
use crate::genes::GenesByStrand;
use crate::genes::genome_wf;
use crate::methylation_site::MethylationSite;
use crate::methylation_site::SiteV;
use crate::methylation_site::find_gene_spec;
use crate::methylation_site::in_gene;
use crate::methylation_site::line_parses;
use crate::methylation_site::line_site;
use crate::methylation_site::place_bins_spec;
use crate::methylation_site::place_spec;
use crate::methylation_site::region_bins;
use crate::methylation_site::region_of;
use crate::methylation_site::site_matches_bin;
use crate::text::dec_chars;
use crate::text::push_decimal;

verus! {

/// One positional bin: the sites that fell into it, in insertion order.
pub type Window = Vec<MethylationSite>;

/// Mathematical image of a window aggregator: the three bin arrays with
/// each site reduced to its coordinates and retained record text.
#[verifier::ext_equal]
pub ghost struct WindowsV {
    pub upstream: Seq<Seq<SiteV>>,
    pub gene: Seq<Seq<SiteV>>,
    pub downstream: Seq<Seq<SiteV>>,
}

impl WindowsV {
    /// Bin counts small enough for every index and coordinate computation
    /// to stay within machine bounds.
    pub open spec fn bounded(self) -> bool {
        &&& self.upstream.len() <= 0x8000_0000
        &&& self.gene.len() <= 0x8000_0000
        &&& self.downstream.len() <= 0x8000_0000
    }
}

/// The window aggregator: one array of bins for each region of a gene.
/// Bin counts are fixed at construction and never change afterwards.
#[derive(PartialEq, Eq, Debug)]
pub struct Windows {
    pub upstream: Vec<Window>,
    pub gene: Vec<Window>,
    pub downstream: Vec<Window>,
}

impl View for Windows {
    type V = WindowsV;

    open spec fn view(&self) -> WindowsV {
        WindowsV {
            upstream: self.upstream.deep_view(),
            gene: self.gene.deep_view(),
            downstream: self.downstream.deep_view(),
        }
    }
}

/// `n` empty bins.
pub open spec fn empty_bins(n: int) -> Seq<Seq<SiteV>> {
    Seq::new(n as nat, |i: int| Seq::<SiteV>::empty())
}

/// How many bins each region of a fresh aggregator has: gene length and
/// flank cutoff divided by the window step under absolute sizing, one bin
/// per percentage point otherwise.
pub open spec fn gene_bin_count(max_gene_length: int, a: Args) -> int {
    if a.absolute {
        max_gene_length / (a.window_step as int)
    } else {
        100
    }
}

/// Bin count of the upstream and downstream arrays of a fresh aggregator.
pub open spec fn flank_bin_count(a: Args) -> int {
    if a.absolute {
        (a.cutoff as int) / (a.window_step as int)
    } else {
        100
    }
}

/// A fresh aggregator's image: all bins empty, at the counts above.
pub open spec fn init_windows(max_gene_length: int, a: Args) -> WindowsV {
    WindowsV {
        upstream: empty_bins(flank_bin_count(a)),
        gene: empty_bins(gene_bin_count(max_gene_length, a)),
        downstream: empty_bins(flank_bin_count(a)),
    }
}

/// A vector of `n` empty bins.
fn make_empty_bins(n: usize) -> (r: Vec<Window>)
    ensures
        r.deep_view() == empty_bins(n as int),
{
    let mut r: Vec<Window> = Vec::new();
    let mut i: usize = 0;
    while i < n
        invariant
            0 <= i <= n,
            r@.len() == i,
            forall|k: int| 0 <= k < i ==> (#[trigger] r@[k]).deep_view() == Seq::<SiteV>::empty(),
        decreases n - i,
    {
        r.push(Vec::new());
        proof {
            assert(r@[i as int].deep_view() =~= Seq::<SiteV>::empty());
        }
        i = i + 1;
    }
    proof {
        assert(r.deep_view() =~= empty_bins(n as int));
    }
    r
}

/// The bins of `v`, in reverse order.
fn reverse_bins(v: Vec<Window>) -> (r: Vec<Window>)
    ensures
        r.deep_view() == v.deep_view().reverse(),
{
    let ghost orig = v.deep_view();
    let ghost n = v@.len() as int;
    let mut v = v;
    let mut r: Vec<Window> = Vec::new();
    while v.len() > 0
        invariant
            v@.len() + r@.len() == n,
            forall|k: int| 0 <= k < v@.len() ==> (#[trigger] v@[k]).deep_view() == orig[k],
            forall|j: int| 0 <= j < r@.len() ==> (#[trigger] r@[j]).deep_view() == orig[n - 1 - j],
        decreases v@.len(),
    {
        let ghost m = v@.len() as int;
        let w: Window = v.pop().unwrap();
        r.push(w);
        proof {
            assert(r@[r@.len() - 1].deep_view() == orig[m - 1]);
        }
    }
    proof {
        assert(r.deep_view() =~= orig.reverse());
    }
    r
}

impl Windows {
    /// A fresh aggregator, every bin empty. Under absolute sizing the gene
    /// region gets one bin per window step over the longest gene and the
    /// flanks one per step over the cutoff; under relative sizing each
    /// region gets a bin per percentage point.
    pub fn new(max_gene_length: i32, args: &Args) -> (r: Windows)
        requires
            args.wf(),
            max_gene_length >= 0,
        ensures
            r@ == init_windows(max_gene_length as int, *args),
            r@.bounded(),
    {
        let gene_window_count: usize = if args.absolute {
            (max_gene_length as usize) / (args.window_step as usize)
        } else {
            100
        };
        let up_down_window_count: usize = if args.absolute {
            (args.cutoff as usize) / (args.window_step as usize)
        } else {
            100
        };
        let r = Windows {
            upstream: make_empty_bins(up_down_window_count),
            gene: make_empty_bins(gene_window_count),
            downstream: make_empty_bins(up_down_window_count),
        };
        r
    }

    /// Flips the aggregator from 5' to 3' reading: the upstream and
    /// downstream arrays swap roles and are reversed, and the gene array is
    /// reversed in place.
    pub fn invert(self) -> (r: Windows)
        ensures
            r@ == invert_spec(self@),
    {
        let Windows { upstream, gene, downstream } = self;
        Windows {
            upstream: reverse_bins(downstream),
            gene: reverse_bins(gene),
            downstream: reverse_bins(upstream),
        }
    }
}

/// The aggregator after a 5'-to-3' flip: upstream and downstream swap
/// roles and are reversed, the gene array is reversed.
pub open spec fn invert_spec(w: WindowsV) -> WindowsV {
    WindowsV {
        upstream: w.downstream.reverse(),
        gene: w.gene.reverse(),
        downstream: w.upstream.reverse(),
    }
}

/// Inverting twice reproduces the original bin contents and order, so a
/// flipped run can be flipped back without loss.
pub proof fn lemma_invert_involutive(w: WindowsV)
    ensures
        invert_spec(invert_spec(w)) == w,
{
    assert(w.upstream.reverse().reverse() =~= w.upstream);
    assert(w.gene.reverse().reverse() =~= w.gene);
    assert(w.downstream.reverse().reverse() =~= w.downstream);
    assert(invert_spec(invert_spec(w)) =~= w);
}

/// A methylome record referred to a chromosome the gene index was not
/// built for: an inconsistent annotation/methylome pairing, fatal to the
/// file being processed.
#[derive(Clone, Copy, PartialEq, Eq, Debug, Structural)]
pub enum IndexError {
    ChromosomeOutOfRange,
}

/// The gene the streaming loop uses for a site: the sticky last-matched
/// gene while the site still falls within its cutoff-extended interval, and
/// a fresh index lookup otherwise.
pub open spec fn sticky_gene(
    last: Option<Gene>,
    site: SiteV,
    genome: Seq<GenesByStrand>,
    cutoff: int,
) -> Option<Gene> {
    match last {
        Some(g) => if in_gene(site, g, cutoff) {
            Some(g)
        } else {
            find_gene_spec(genome, site, cutoff)
        },
        None => find_gene_spec(genome, site, cutoff),
    }
}

/// The aggregator the extraction pipeline reaches from line `i` on, given
/// the bins filled so far and the sticky gene: unparsable lines are
/// skipped, a parsed site on a chromosome outside the index is fatal, and
/// every other site is placed against its sticky or freshly looked-up gene
/// when one is found and dropped when none is.
pub open spec fn extract_from(
    lines: Seq<Seq<char>>,
    i: int,
    w: WindowsV,
    last: Option<Gene>,
    genome: Seq<GenesByStrand>,
    a: Args,
) -> Option<WindowsV>
    decreases lines.len() - i,
{
    if i < 0 || i >= lines.len() {
        Some(w)
    } else if !line_parses(lines[i]) {
        extract_from(lines, i + 1, w, last, genome, a)
    } else {
        let site = line_site(lines[i], a.invert);
        if site.chromosome < 1 || site.chromosome as int > genome.len() {
            None
        } else {
            match sticky_gene(last, site, genome, a.cutoff as int) {
                Some(g) => extract_from(lines, i + 1, place_spec(w, site, g, a), Some(g), genome, a),
                None => extract_from(lines, i + 1, w, None, genome, a),
            }
        }
    }
}

/// Streams the lines of one methylome file into a fresh aggregator. The
/// first line is a header and skipped; every further line is parsed, sites
/// on unannotated stretches are dropped, and each matched site is placed
/// into the windows of its region. The sticky last-matched gene makes one
/// index lookup serve a run of consecutive sites, which reports the same
/// placements as looking every site up only because methylome records
/// arrive sorted by ascending position within a chromosome.
pub fn extract_windows(
    lines: &Vec<String>,
    genome: &Vec<GenesByStrand>,
    max_gene_length: i32,
    args: &Args,
) -> (r: Result<Windows, IndexError>)
    requires
        args.wf(),
        max_gene_length >= 0,
        genome_wf(genome@),
    ensures
        r matches Ok(w) ==> Some(w@) == extract_from(
            lines.deep_view(),
            1,
            init_windows(max_gene_length as int, *args),
            None::<Gene>,
            genome@,
            *args,
        ),
        r matches Ok(w) ==> w@.bounded(),
        r is Err ==> extract_from(
            lines.deep_view(),
            1,
            init_windows(max_gene_length as int, *args),
            None::<Gene>,
            genome@,
            *args,
        ) is None,
{
    let ghost el = lines.deep_view();
    let ghost init = init_windows(max_gene_length as int, *args);
    let mut windows: Windows = Windows::new(max_gene_length, args);
    let mut last: Option<Gene> = None;
    let mut i: usize = 1;
    while i < lines.len()
        invariant
            1 <= i,
            el == lines.deep_view(),
            init == init_windows(max_gene_length as int, *args),
            args.wf(),
            genome_wf(genome@),
            windows@.bounded(),
            extract_from(el, i as int, windows@, last, genome@, *args) == extract_from(
                el,
                1,
                init,
                None::<Gene>,
                genome@,
                *args,
            ),
        decreases lines@.len() - i,
    {
        let ghost w0 = windows@;
        let ghost last0 = last;
        let line: &String = &lines[i];
        proof {
            assert(line@ == el[i as int]);
        }
        match MethylationSite::from_methylome_file_line(line.as_str(), args.invert) {
            Err(_) => {
                proof {
                    assert(extract_from(el, i as int, w0, last0, genome@, *args) == extract_from(
                        el,
                        i + 1,
                        w0,
                        last0,
                        genome@,
                        *args,
                    ));
                }
            },
            Ok(site) => {
                proof {
                    assert(site@ == line_site(el[i as int], args.invert));
                }
                if site.chromosome < 1 || (site.chromosome as usize) > genome.len() {
                    proof {
                        assert(extract_from(el, i as int, w0, last0, genome@, *args) is None);
                    }
                    return Err(IndexError::ChromosomeOutOfRange);
                }
                let use_last: bool = match &last {
                    Some(g) => site.is_in_gene(g, args.cutoff),
                    None => false,
                };
                if !use_last {
                    last = match site.find_gene(genome, args.cutoff) {
                        Some(g) => Some(g.duplicate()),
                        None => None,
                    };
                }
                proof {
                    assert(last == sticky_gene(last0, site@, genome@, args.cutoff as int));
                }
                match &last {
                    Some(g) => {
                        let _ = site.place_in_windows(g, &mut windows, args);
                        proof {
                            assert(extract_from(el, i as int, w0, last0, genome@, *args)
                                == extract_from(el, i + 1, windows@, last, genome@, *args));
                        }
                    },
                    None => {
                        proof {
                            assert(extract_from(el, i as int, w0, last0, genome@, *args)
                                == extract_from(el, i + 1, windows@, last, genome@, *args));
                        }
                    },
                }
            },
        }
        i = i + 1;
    }
    proof {
        assert(extract_from(el, i as int, windows@, last, genome@, *args) == Some(windows@));
    }
    Ok(windows)
}

/// The retained records of `s`, joined by single newlines, as one bin's
/// file body is written.
pub open spec fn joined_originals(s: Seq<SiteV>) -> Seq<char>
    decreases s.len(),
{
    if s.len() == 0 {
        Seq::<char>::empty()
    } else if s.len() == 1 {
        s[0].original
    } else {
        s[0].original + "\n"@ + joined_originals(s.skip(1))
    }
}

/// Appends the records of `sites` from index `from` on, newline-joined.
fn push_joined(out: &mut String, sites: &Vec<MethylationSite>, from: usize)
    requires
        from <= sites@.len(),
    ensures
        final(out)@ == old(out)@ + joined_originals(sites.deep_view().skip(from as int)),
    decreases sites@.len() - from,
{
    if from < sites.len() {
        let site: &MethylationSite = &sites[from];
        out.append(site.original.as_str());
        if from + 1 < sites.len() {
            out.append("\n");
        }
        push_joined(out, sites, from + 1);
        proof {
            let d = sites.deep_view();
            assert(d.skip(from as int)[0] == d[from as int]);
            if from + 1 < sites@.len() {
                assert(d.skip(from as int).skip(1) =~= d.skip(from + 1));
                assert(out@ =~= old(out)@ + joined_originals(d.skip(from as int)));
            } else {
                assert(d.skip(from as int).len() == 1);
                assert(d.skip(from + 1).len() == 0);
                assert(out@ =~= old(out)@ + joined_originals(d.skip(from as int)));
            }
        }
    } else {
        proof {
            assert(sites.deep_view().skip(from as int).len() == 0);
            assert(out@ =~= old(out)@ + joined_originals(sites.deep_view().skip(from as int)));
        }
    }
}

/// The body of one bin's output file: every site's original record line,
/// newline-joined, with nothing before or after.
pub fn join_originals(sites: &Vec<MethylationSite>) -> (r: String)
    ensures
        r@ == joined_originals(sites.deep_view()),
{
    let mut out = String::new();
    push_joined(&mut out, sites, 0);
    proof {
        assert(sites.deep_view().skip(0) =~= sites.deep_view());
    }
    out
}

/// The per-bin site counts of one region's bin array.
pub open spec fn counts_of(bins: Seq<Seq<SiteV>>) -> Seq<nat> {
    Seq::new(bins.len(), |i: int| bins[i].len())
}

/// One distribution row: bin index, a comma, the bin's site count, a
/// newline.
pub open spec fn row_text(idx: nat, count: nat) -> Seq<char> {
    dec_chars(idx) + ","@ + dec_chars(count) + "\n"@
}

/// The rows of one distribution group, indices counting up from `start`.
pub open spec fn rows_text(counts: Seq<nat>, start: nat) -> Seq<char>
    decreases counts.len(),
{
    if counts.len() == 0 {
        Seq::<char>::empty()
    } else {
        row_text(start, counts[0]) + rows_text(counts.skip(1), start + 1)
    }
}

/// The rows of two group halves laid out consecutively are the rows of the
/// concatenated group.
pub proof fn lemma_rows_concat(a: Seq<nat>, b: Seq<nat>, start: nat)
    ensures
        rows_text(a + b, start) == rows_text(a, start) + rows_text(b, (start + a.len()) as nat),
    decreases a.len(),
{
    if a.len() == 0 {
        assert(a + b =~= b);
        assert(rows_text(a, start) + rows_text(b, start) =~= rows_text(b, start));
    } else {
        assert((a + b)[0] == a[0]);
        assert((a + b).skip(1) =~= a.skip(1) + b);
        lemma_rows_concat(a.skip(1), b, (start + 1) as nat);
        assert(rows_text(a + b, start) =~= rows_text(a, start) + rows_text(
            b,
            (start + a.len()) as nat,
        ));
    }
}

/// The whole distribution summary: an `index,count` row per bin, grouped
/// under the four literal section headers, with the combined section
/// numbering all bins consecutively in upstream, gene, downstream order.
pub open spec fn distribution_text(w: WindowsV) -> Seq<char> {
    "Upstream\n"@ + rows_text(counts_of(w.upstream), 0) + "Gene\n"@ + rows_text(
        counts_of(w.gene),
        0,
    ) + "Downstream\n"@ + rows_text(counts_of(w.downstream), 0) + "Combined\n"@ + rows_text(
        counts_of(w.upstream) + counts_of(w.gene) + counts_of(w.downstream),
        0,
    )
}

/// Appends the rows of `bins` from bin `from` on, printed indices counting
/// up from `start`.
fn push_rows(out: &mut String, bins: &Vec<Window>, from: usize, start: usize)
    requires
        from <= bins@.len(),
        start + (bins@.len() - from) <= usize::MAX,
    ensures
        final(out)@ == old(out)@ + rows_text(
            counts_of(bins.deep_view()).skip(from as int),
            start as nat,
        ),
    decreases bins@.len() - from,
{
    let ghost c = counts_of(bins.deep_view());
    if from < bins.len() {
        push_decimal(out, start);
        out.append(",");
        push_decimal(out, bins[from].len());
        out.append("\n");
        proof {
            assert(bins@[from as int].deep_view().len() == bins@[from as int]@.len());
            assert(c.skip(from as int)[0] == c[from as int]);
        }
        push_rows(out, bins, from + 1, start + 1);
        proof {
            assert(c.skip(from as int).skip(1) =~= c.skip(from + 1));
            assert(out@ =~= old(out)@ + rows_text(c.skip(from as int), start as nat));
        }
    } else {
        proof {
            assert(c.skip(from as int).len() == 0);
            assert(out@ =~= old(out)@ + rows_text(c.skip(from as int), start as nat));
        }
    }
}

impl Windows {
    /// The textual distribution summary of this aggregator: for each of
    /// Upstream, Gene, Downstream and the three combined, one `index,count`
    /// row per bin under the group's literal header.
    pub fn distribution(&self) -> (r: String)
        requires
            self@.upstream.len() + self@.gene.len() + self@.downstream.len() <= usize::MAX,
        ensures
            r@ == distribution_text(self@),
    {
        let mut out = String::new();
        out.append("Upstream\n");
        push_rows(&mut out, &self.upstream, 0, 0);
        out.append("Gene\n");
        push_rows(&mut out, &self.gene, 0, 0);
        out.append("Downstream\n");
        push_rows(&mut out, &self.downstream, 0, 0);
        out.append("Combined\n");
        let up_len: usize = self.upstream.len();
        let gene_len: usize = self.gene.len();
        push_rows(&mut out, &self.upstream, 0, 0);
        push_rows(&mut out, &self.gene, 0, up_len);
        push_rows(&mut out, &self.downstream, 0, up_len + gene_len);
        proof {
            let cu = counts_of(self@.upstream);
            let cg = counts_of(self@.gene);
            let cd = counts_of(self@.downstream);
            assert(cu.skip(0) =~= cu);
            assert(cg.skip(0) =~= cg);
            assert(cd.skip(0) =~= cd);
            lemma_rows_concat(cu + cg, cd, 0);
            lemma_rows_concat(cu, cg, 0);
            assert((cu + cg) + cd =~= cu + cg + cd);
            assert(out@ =~= distribution_text(self@));
        }
        out
    }
}

/// Sum of a group's per-bin counts.
pub open spec fn sum_counts(s: Seq<nat>) -> nat
    decreases s.len(),
{
    if s.len() == 0 {
        0
    } else {
        sum_counts(s.drop_last()) + s.last()
    }
}

/// Sites held across all bins of the aggregator, duplicates counted: every
/// placement ever recorded into it.
pub open spec fn total_sites(w: WindowsV) -> nat {
    sum_counts(counts_of(w.upstream)) + sum_counts(counts_of(w.gene)) + sum_counts(
        counts_of(w.downstream),
    )
}

/// Counts are summed per group; consecutive groups sum to the sum of the
/// concatenation.
pub proof fn lemma_sum_counts_concat(a: Seq<nat>, b: Seq<nat>)
    ensures
        sum_counts(a + b) == sum_counts(a) + sum_counts(b),
    decreases b.len(),
{
    if b.len() == 0 {
        assert(a + b =~= a);
    } else {
        assert((a + b).drop_last() =~= a + b.drop_last());
        assert((a + b).last() == b.last());
        lemma_sum_counts_concat(a, b.drop_last());
    }
}

/// The counts of the distribution's combined section sum to the total
/// number of placements the aggregator records.
pub proof fn lemma_combined_counts_sum(w: WindowsV)
    ensures
        sum_counts(counts_of(w.upstream) + counts_of(w.gene) + counts_of(w.downstream))
            == total_sites(w),
{
    lemma_sum_counts_concat(counts_of(w.upstream) + counts_of(w.gene), counts_of(w.downstream));
    lemma_sum_counts_concat(counts_of(w.upstream), counts_of(w.gene));
}

/// How many bins of an `n`-bin array the site falls in.
pub open spec fn matched_count(s: SiteV, g: Gene, a: Args, n: nat) -> nat
    decreases n,
{
    if n == 0 {
        0
    } else {
        matched_count(s, g, a, (n - 1) as nat) + if site_matches_bin(s, g, a, n - 1) {
            1nat
        } else {
            0nat
        }
    }
}

/// Placing a site into a bin array grows its total count by exactly the
/// number of bins the site falls in.
pub proof fn lemma_place_bins_total(bins: Seq<Seq<SiteV>>, s: SiteV, g: Gene, a: Args)
    ensures
        sum_counts(counts_of(place_bins_spec(bins, s, g, a))) == sum_counts(counts_of(bins))
            + matched_count(s, g, a, bins.len()),
    decreases bins.len(),
{
    if bins.len() == 0 {
        assert(counts_of(place_bins_spec(bins, s, g, a)).len() == 0);
    } else {
        let pre = bins.drop_last();
        lemma_place_bins_total(pre, s, g, a);
        assert(counts_of(place_bins_spec(bins, s, g, a)).drop_last() =~= counts_of(
            place_bins_spec(pre, s, g, a),
        ));
        assert(counts_of(bins).drop_last() =~= counts_of(pre));
        assert(counts_of(bins).last() == bins.last().len());
        if site_matches_bin(s, g, a, bins.len() - 1) {
            assert(counts_of(place_bins_spec(bins, s, g, a)).last() == bins.last().len() + 1);
        } else {
            assert(counts_of(place_bins_spec(bins, s, g, a)).last() == bins.last().len());
        }
    }
}

/// `matched_count` and the placement engine's bin-level count agree, so
/// the pairs a placement returns are exactly as many as the sites it
/// records.
pub proof fn lemma_matched_count_bins(s: SiteV, g: Gene, a: Args, n: nat)
    ensures
        matched_count(s, g, a, n) == crate::methylation_site::bin_match_count(
            crate::methylation_site::position_num(s, g, a),
            crate::methylation_site::position_den(s, g, a),
            a.window_step as int,
            a.window_size as int,
            n,
        ),
    decreases n,
{
    if n > 0 {
        lemma_matched_count_bins(s, g, a, (n - 1) as nat);
    }
}

/// One placement adds exactly as many recorded sites as the bins it
/// matched, so the distribution's counts always sum to the number of
/// placements recorded, duplicates from overlapping bins included.
pub proof fn lemma_place_spec_total(w: WindowsV, s: SiteV, g: Gene, a: Args)
    ensures
        total_sites(place_spec(w, s, g, a)) == total_sites(w) + matched_count(
            s,
            g,
            a,
            region_bins(w, region_of(s, g)).len(),
        ),
{
    lemma_place_bins_total(region_bins(w, region_of(s, g)), s, g, a);
}

} // verus!
