use vstd::prelude::*;
use vstd::string::StrSliceExecFns;

use crate::arguments::Args;
use crate::genes::Gene;
use crate::genes::GenesByStrand;
use crate::genes::Region;
use crate::genes::Strand;
use crate::genes::homogeneous;
use crate::genes::sorted_by_end;
use crate::windows::Windows;
use crate::windows::WindowsV;
use crate::windows::Window;
use crate::text::i32_parse;
use crate::text::split_line;
use crate::text::split_tabs;
use crate::text::parse_i32;
use crate::text::parse_u8;
use crate::text::u8_parse;

verus! {

/// Why a methylome line yields no site: a field count other than nine, a
/// context tag other than `CG` (header lines fall under this), or a
/// chromosome or location field that is not a number in range.
#[derive(Clone, Copy, PartialEq, Eq, Debug, Structural)]
pub enum ParseError {
    WrongFieldCount,
    UnrecognizedContext,
    MalformedNumber,
}

/// Mathematical image of a methylation site: its coordinates and the raw
/// text of the record it came from.
pub ghost struct SiteV {
    pub chromosome: u8,
    pub location: i32,
    pub strand: Strand,
    pub original: Seq<char>,
}

/// One measured CG site: where it lies, on which strand it was reported
/// (already adjusted for the run's inversion flag), and the verbatim source
/// record kept for later output.
#[derive(Clone, PartialEq, Eq, Debug)]
pub struct MethylationSite {
    pub chromosome: u8,
    pub location: i32,
    pub strand: Strand,
    pub original: String,
}

impl View for MethylationSite {
    type V = SiteV;

    open spec fn view(&self) -> SiteV {
        SiteV {
            chromosome: self.chromosome,
            location: self.location,
            strand: self.strand,
            original: self.original@,
        }
    }
}

impl DeepView for MethylationSite {
    type V = SiteV;

    open spec fn deep_view(&self) -> SiteV {
        self.view()
    }
}

/// A methylome line parses to a site: nine tab-separated fields, the fourth
/// being the `CG` context tag, with a `u8` chromosome and an `i32` location.
pub open spec fn line_parses(s: Seq<char>) -> bool {
    let f = split_tabs(s);
    &&& f.len() == 9
    &&& f[3] == seq!['C', 'G']
    &&& u8_parse(f[0]) is Some
    &&& i32_parse(f[1]) is Some
}

/// The site a parsable methylome line denotes: its first two fields as
/// numbers, the strand read from the third field and flipped when `invert`
/// is set, and the whole line as the retained record.
pub open spec fn line_site(s: Seq<char>, invert: bool) -> SiteV {
    let f = split_tabs(s);
    SiteV {
        chromosome: u8_parse(f[0]).unwrap(),
        location: i32_parse(f[1]).unwrap(),
        strand: if (f[2] == seq!['+']) != invert {
            Strand::Sense
        } else {
            Strand::Antisense
        },
        original: s,
    }
}

/// A site lies within `cutoff` base pairs of the gene's interval, on the
/// same chromosome and strand.
pub open spec fn in_gene(s: SiteV, g: Gene, cutoff: int) -> bool {
    &&& s.chromosome == g.chromosome
    &&& g.start <= s.location + cutoff
    &&& s.location <= g.end + cutoff
    &&& s.strand == g.strand
}

/// The strand's bucket of a chromosome's genes.
pub open spec fn strand_bucket(c: GenesByStrand, strand: Strand) -> Seq<Gene> {
    if strand == Strand::Sense {
        c.sense@
    } else {
        c.antisense@
    }
}

/// The gene bucket a site's lookup searches: the bucket of the site's
/// strand on the site's chromosome.
pub open spec fn site_bucket(genome: Seq<GenesByStrand>, s: SiteV) -> Seq<Gene> {
    strand_bucket(genome[s.chromosome - 1], s.strand)
}

/// First index whose gene, extended by `cutoff`, ends at or after
/// `location`: the sole candidate a sorted lookup ever tests.
pub open spec fn lookup_candidate(s: Seq<Gene>, location: int, cutoff: int) -> int
    decreases s.len(),
{
    if s.len() == 0 {
        0
    } else if s[0].end + cutoff >= location {
        0
    } else {
        1 + lookup_candidate(s.skip(1), location, cutoff)
    }
}

/// `lookup_candidate` is the first index whose extended end reaches
/// `location`.
pub proof fn lemma_lookup_candidate(s: Seq<Gene>, location: int, cutoff: int)
    ensures
        0 <= lookup_candidate(s, location, cutoff) <= s.len(),
        forall|j: int| 0 <= j < lookup_candidate(s, location, cutoff) ==> (#[trigger] s[j]).end
            + cutoff < location,
        lookup_candidate(s, location, cutoff) < s.len() ==> s[lookup_candidate(
            s,
            location,
            cutoff,
        )].end + cutoff >= location,
    decreases s.len(),
{
    if s.len() > 0 && !(s[0].end + cutoff >= location) {
        lemma_lookup_candidate(s.skip(1), location, cutoff);
        assert forall|j: int| 0 <= j < lookup_candidate(s, location, cutoff) implies (
        #[trigger] s[j]).end + cutoff < location by {
            if j > 0 {
                assert(s.skip(1)[j - 1] == s[j]);
            }
        }
    }
}

/// What the gene lookup returns: the sole candidate of the site's bucket
/// when it passes the containment test, nothing otherwise.
pub open spec fn find_gene_spec(genome: Seq<GenesByStrand>, site: SiteV, cutoff: int) -> Option<
    Gene,
> {
    let bucket = site_bucket(genome, site);
    let c = lookup_candidate(bucket, site.location as int, cutoff);
    if c < bucket.len() && in_gene(site, bucket[c], cutoff) {
        Some(bucket[c])
    } else {
        None
    }
}

impl MethylationSite {
    /// Reads one methylome file line into a CG site. Only a line of exactly
    /// nine tab-separated fields whose fourth field is the literal `CG`
    /// context tag yields a site; the strand is the third field's `+`/other
    /// reading XOR-ed with `invert_strand`, and the whole line is retained
    /// verbatim.
    pub fn from_methylome_file_line(s: &str, invert_strand: bool) -> (r: Result<
        MethylationSite,
        ParseError,
    >)
        ensures
            r is Ok <==> line_parses(s@),
            r matches Ok(site) ==> site@ == line_site(s@, invert_strand),
            split_tabs(s@).len() != 9 ==> r == Err::<MethylationSite, ParseError>(
                ParseError::WrongFieldCount,
            ),
            split_tabs(s@).len() == 9 && split_tabs(s@)[3] != seq!['C', 'G'] ==> r == Err::<
                MethylationSite,
                ParseError,
            >(ParseError::UnrecognizedContext),
            split_tabs(s@).len() == 9 && split_tabs(s@)[3] == seq!['C', 'G'] && !line_parses(s@)
                ==> r == Err::<MethylationSite, ParseError>(ParseError::MalformedNumber),
    {
        let ghost f = split_tabs(s@);
        let fields = split_line(s);
        proof {
            assert(fields@.len() == f.len());
        }
        if fields.len() != 9 {
            return Err(ParseError::WrongFieldCount);
        }
        proof {
            assert(fields@[3]@ == f[3]);
            assert(fields@[2]@ == f[2]);
            assert(fields@[1]@ == f[1]);
            assert(fields@[0]@ == f[0]);
        }
        let context: &str = fields[3].as_str();
        let context_ok: bool = context.unicode_len() == 2 && context.get_char(0) == 'C'
            && context.get_char(1) == 'G';
        proof {
            if context_ok {
                assert(f[3] =~= seq!['C', 'G']);
            } else if f[3].len() == 2 {
                assert(f[3] != seq!['C', 'G']) by {
                    assert(seq!['C', 'G'][0] == 'C' && seq!['C', 'G'][1] == 'G');
                }
            }
        }
        if !context_ok {
            return Err(ParseError::UnrecognizedContext);
        }
        let chromosome: u8 = match parse_u8(fields[0].as_str()) {
            Some(c) => c,
            None => {
                return Err(ParseError::MalformedNumber);
            },
        };
        let location: i32 = match parse_i32(fields[1].as_str()) {
            Some(l) => l,
            None => {
                return Err(ParseError::MalformedNumber);
            },
        };
        let strand_field: &str = fields[2].as_str();
        let plus: bool = strand_field.unicode_len() == 1 && strand_field.get_char(0) == '+';
        proof {
            if plus {
                assert(f[2] =~= seq!['+']);
            } else if f[2].len() == 1 {
                assert(f[2] != seq!['+']) by {
                    assert(seq!['+'][0] == '+');
                }
            }
        }
        let strand: Strand = if plus != invert_strand {
            Strand::Sense
        } else {
            Strand::Antisense
        };
        Ok(MethylationSite { chromosome, location, strand, original: s.to_owned() })
    }

    /// Whether this CG site belongs to `gene` once the gene's interval is
    /// extended by `cutoff` base pairs on both sides; a cutoff of zero tests
    /// strict containment.
    pub fn is_in_gene(&self, gene: &Gene, cutoff: i32) -> (r: bool)
        ensures
            r == in_gene(self@, *gene, cutoff as int),
    {
        self.chromosome == gene.chromosome && gene.start as i64 <= self.location as i64
            + cutoff as i64 && self.location as i64 <= gene.end as i64 + cutoff as i64
            && self.strand == gene.strand
    }

    /// Finds the gene this CG site belongs to, by binary search over the
    /// end-sorted bucket of the site's chromosome and strand: the first gene
    /// whose cutoff-extended end reaches the site is the sole candidate, and
    /// it is returned exactly when the site lies within its extended
    /// interval.
    pub fn find_gene<'a>(&self, genome: &'a Vec<GenesByStrand>, cutoff: i32) -> (r: Option<
        &'a Gene,
    >)
        requires
            1 <= self.chromosome as int,
            self.chromosome as int <= genome@.len(),
            sorted_by_end(site_bucket(genome@, self@)),
        ensures
            r matches Some(g) ==> Some(*g) == find_gene_spec(genome@, self@, cutoff as int),
            r is None ==> find_gene_spec(genome@, self@, cutoff as int) is None,
    {
        let chromosome: &GenesByStrand = &genome[(self.chromosome - 1) as usize];
        let bucket: &Vec<Gene> = match self.strand {
            Strand::Sense => &chromosome.sense,
            Strand::Antisense => &chromosome.antisense,
        };
        proof {
            assert(bucket@ == site_bucket(genome@, self@));
            lemma_lookup_candidate(bucket@, self@.location as int, cutoff as int);
        }
        let location: i64 = self.location as i64;
        let cutoff_wide: i64 = cutoff as i64;
        let mut lo: usize = 0;
        let mut hi: usize = bucket.len();
        while lo < hi
            invariant
                0 <= lo <= hi <= bucket@.len(),
                sorted_by_end(bucket@),
                location == self@.location as int,
                cutoff_wide == cutoff as int,
                forall|j: int| 0 <= j < lo ==> (#[trigger] bucket@[j]).end + cutoff_wide
                    < location,
                forall|j: int| hi <= j < bucket@.len() ==> (#[trigger] bucket@[j]).end
                    + cutoff_wide >= location,
            decreases hi - lo,
        {
            let mid: usize = lo + (hi - lo) / 2;
            if bucket[mid].end as i64 + cutoff_wide >= location {
                proof {
                    assert forall|j: int| mid <= j < bucket@.len() implies (
                    #[trigger] bucket@[j]).end + cutoff_wide >= location by {
                        assert(bucket@[mid as int].end <= bucket@[j].end);
                    }
                }
                hi = mid;
            } else {
                lo = mid + 1;
            }
        }
        proof {
            let c = lookup_candidate(bucket@, self@.location as int, cutoff as int);
            if c < lo {
                assert(bucket@[c].end + cutoff_wide < location);
            }
            if lo < c {
                assert(bucket@[lo as int].end + cutoff_wide >= location);
            }
            assert(c == lo);
        }
        if lo < bucket.len() {
            let gene: &Gene = &bucket[lo];
            if self.is_in_gene(gene, cutoff) {
                return Some(gene);
            }
        }
        None
    }
}

/// Offset of a site from a gene's transcription start: distance from
/// `start` on the sense strand, from `end` on the antisense strand, so that
/// downstream always means past the transcription end.
pub open spec fn offset_of(s: SiteV, g: Gene) -> int {
    if s.strand == Strand::Sense {
        s.location - g.start
    } else {
        g.end - s.location
    }
}

/// Length of a gene's coding interval.
pub open spec fn gene_length(g: Gene) -> int {
    g.end - g.start
}

/// Region of a gene a site falls in: before the transcription start it is
/// upstream, past the transcription end it is downstream, and a site
/// exactly on either boundary belongs to the gene body.
pub open spec fn region_of(s: SiteV, g: Gene) -> Region {
    let off = offset_of(s, g);
    if off < 0 {
        Region::Upstream
    } else if off > gene_length(g) {
        Region::Downstream
    } else {
        Region::Gene
    }
}

/// Base-pair position of a site within its region, measured in reading
/// direction: flank positions grow from the far edge of the cutoff window
/// (upstream) or from the transcription end (downstream).
pub open spec fn raw_position(s: SiteV, g: Gene, cutoff: int) -> int {
    match (region_of(s, g), s.strand) {
        (Region::Upstream, Strand::Sense) => s.location - g.start + cutoff,
        (Region::Gene, Strand::Sense) => s.location - g.start,
        (Region::Downstream, Strand::Sense) => s.location - g.end,
        (Region::Upstream, Strand::Antisense) => g.end - s.location + cutoff,
        (Region::Gene, Strand::Antisense) => g.end - s.location,
        (Region::Downstream, Strand::Antisense) => g.start - s.location,
    }
}

/// Numerator of the exact position a site is binned at. Under relative
/// sizing the position is the raw position as a percentage of the cutoff
/// (flanks) or the gene length (gene body): the fraction `num / den` with
/// `num` scaled by 100.
pub open spec fn position_num(s: SiteV, g: Gene, a: Args) -> int {
    if a.absolute {
        raw_position(s, g, a.cutoff as int)
    } else {
        100 * raw_position(s, g, a.cutoff as int)
    }
}

/// Denominator of the exact position a site is binned at; 1 under absolute
/// sizing.
pub open spec fn position_den(s: SiteV, g: Gene, a: Args) -> int {
    if a.absolute {
        1
    } else if region_of(s, g) == Region::Gene {
        gene_length(g)
    } else {
        a.cutoff as int
    }
}

/// Whether the exact position `num / den` lies in bin `i`, which spans
/// `[i*step - 1/10, i*step + size + 1/10]`: the bin's own interval widened
/// by the fixed boundary tolerance of a tenth of a unit on each side. A
/// zero denominator (a zero-length gene or zero cutoff under relative
/// sizing) puts the position outside every bin.
pub open spec fn bin_matches(num: int, den: int, i: int, step: int, size: int) -> bool {
    let lower = 10 * (i * step) - 1;
    let upper = 10 * (i * step) + 10 * size + 1;
    if den > 0 {
        lower * den <= 10 * num && 10 * num <= upper * den
    } else if den < 0 {
        lower * den >= 10 * num && 10 * num >= upper * den
    } else {
        false
    }
}

/// How many of the first `n` bins the exact position `num / den` lies in.
pub open spec fn bin_match_count(num: int, den: int, step: int, size: int, n: nat) -> nat
    decreases n,
{
    if n == 0 {
        0
    } else {
        bin_match_count(num, den, step, size, (n - 1) as nat) + if bin_matches(
            num,
            den,
            n - 1,
            step,
            size,
        ) {
            1nat
        } else {
            0nat
        }
    }
}

/// Whether the site falls into bin `i` of its region's array under the
/// run's window geometry.
pub open spec fn site_matches_bin(s: SiteV, g: Gene, a: Args, i: int) -> bool {
    bin_matches(
        position_num(s, g, a),
        position_den(s, g, a),
        i,
        a.window_step as int,
        a.window_size as int,
    )
}

/// One region's bin array after a site is placed: the site is appended to
/// every bin it falls in and every other bin is untouched.
pub open spec fn place_bins_spec(bins: Seq<Seq<SiteV>>, s: SiteV, g: Gene, a: Args) -> Seq<
    Seq<SiteV>,
> {
    Seq::new(
        bins.len(),
        |i: int|
            if site_matches_bin(s, g, a, i) {
                bins[i].push(s)
            } else {
                bins[i]
            },
    )
}

/// The bin array of one region.
pub open spec fn region_bins(w: WindowsV, r: Region) -> Seq<Seq<SiteV>> {
    match r {
        Region::Upstream => w.upstream,
        Region::Gene => w.gene,
        Region::Downstream => w.downstream,
    }
}

/// A whole aggregator after a site is placed against a gene: only the bin
/// array of the site's region changes, as `place_bins_spec` says.
pub open spec fn place_spec(w: WindowsV, s: SiteV, g: Gene, a: Args) -> WindowsV {
    match region_of(s, g) {
        Region::Upstream => WindowsV { upstream: place_bins_spec(w.upstream, s, g, a), ..w },
        Region::Gene => WindowsV { gene: place_bins_spec(w.gene, s, g, a), ..w },
        Region::Downstream => WindowsV { downstream: place_bins_spec(w.downstream, s, g, a), ..w },
    }
}

/// Appends a copy of `site` to every bin of `bins` whose span contains the
/// exact position `num / den`, and returns the region-tagged index of every
/// bin it entered, in ascending order.
/// Whether the exact position `num / den` lies in bin `i`, by exact
/// integer comparison of the tolerance-widened bin bounds.
fn bin_match(num: i64, den: i64, i: usize, step: i32, size: i32) -> (r: bool)
    requires
        i <= 0x8000_0000,
        -0x100_0000_0000 <= num <= 0x100_0000_0000,
        -0x2_0000_0000 <= den <= 0x2_0000_0000,
    ensures
        r == bin_matches(num as int, den as int, i as int, step as int, size as int),
{
    let n10: i128 = 10 * (num as i128);
    let ip: i128 = i as i128;
    let sp: i128 = step as i128;
    proof {
        assert(-0x4000_0000_0000_0000 <= ip * sp <= 0x4000_0000_0000_0000) by (nonlinear_arith)
            requires
                0 <= ip <= 0x8000_0000,
                -0x8000_0000 <= sp <= 0x8000_0000,
        ;
    }
    let base: i128 = 10 * (ip * sp);
    let lower: i128 = base - 1;
    let upper: i128 = base + 10 * (size as i128) + 1;
    let den_wide: i128 = den as i128;
    proof {
        assert(-0x80_0000_0000_0000_0000_0000_0000 <= lower * den_wide
            <= 0x80_0000_0000_0000_0000_0000_0000) by (nonlinear_arith)
            requires
                -0x4_0000_0000_0000_0000 <= lower <= 0x4_0000_0000_0000_0000,
                -0x2_0000_0000 <= den_wide <= 0x2_0000_0000,
        ;
        assert(-0x80_0000_0000_0000_0000_0000_0000 <= upper * den_wide
            <= 0x80_0000_0000_0000_0000_0000_0000) by (nonlinear_arith)
            requires
                -0x4_0000_0000_0000_0000 <= upper <= 0x4_0000_0000_0000_0000,
                -0x2_0000_0000 <= den_wide <= 0x2_0000_0000,
        ;
    }
    if den > 0 {
        lower * den_wide <= n10 && n10 <= upper * den_wide
    } else if den < 0 {
        lower * den_wide >= n10 && n10 >= upper * den_wide
    } else {
        false
    }
}

/// Appends a copy of `site` to every bin of `bins` whose span contains the
/// exact position `num / den`, and returns the region-tagged index of every
/// bin it entered, in ascending order.
fn place_into_bins(
    bins: &mut Vec<Window>,
    site: &MethylationSite,
    region: Region,
    num: i64,
    den: i64,
    step: i32,
    size: i32,
) -> (r: Vec<(Region, usize)>)
    requires
        old(bins)@.len() <= 0x8000_0000,
        -0x100_0000_0000 <= num <= 0x100_0000_0000,
        -0x2_0000_0000 <= den <= 0x2_0000_0000,
    ensures
        final(bins).deep_view().len() == old(bins).deep_view().len(),
        forall|i: int|
            0 <= i < old(bins)@.len() && bin_matches(
                num as int,
                den as int,
                i,
                step as int,
                size as int,
            ) ==> final(bins).deep_view()[i] == old(bins).deep_view()[i].push(site@),
        forall|i: int|
            0 <= i < old(bins)@.len() && !bin_matches(
                num as int,
                den as int,
                i,
                step as int,
                size as int,
            ) ==> final(bins).deep_view()[i] == old(bins).deep_view()[i],
        forall|k: int|
            0 <= k < r@.len() ==> ((#[trigger] r@[k]).0 == region && r@[k].1 < old(bins)@.len()
                && bin_matches(num as int, den as int, r@[k].1 as int, step as int, size as int)),
        forall|i: int|
            0 <= i < old(bins)@.len() && bin_matches(
                num as int,
                den as int,
                i,
                step as int,
                size as int,
            ) ==> r@.contains((region, i as usize)),
        forall|k1: int, k2: int|
            0 <= k1 < k2 < r@.len() ==> (#[trigger] r@[k1]).1 < (#[trigger] r@[k2]).1,
        r@.len() == bin_match_count(
            num as int,
            den as int,
            step as int,
            size as int,
            old(bins)@.len() as nat,
        ),
{
    let n: usize = bins.len();
    let mut tmp: Vec<Window> = Vec::new();
    while bins.len() > 0
        invariant
            bins@.len() + tmp@.len() == n,
            n <= 0x8000_0000,
            -0x100_0000_0000 <= num <= 0x100_0000_0000,
            -0x2_0000_0000 <= den <= 0x2_0000_0000,
            forall|k: int| 0 <= k < bins@.len() ==> (#[trigger] bins@[k]) == old(bins)@[k],
            forall|t: int|
                0 <= t < tmp@.len() && bin_matches(
                    num as int,
                    den as int,
                    n - 1 - t,
                    step as int,
                    size as int,
                ) ==> (#[trigger] tmp@[t]).deep_view() == old(bins)@[n - 1 - t].deep_view().push(
                    site@,
                ),
            forall|t: int|
                0 <= t < tmp@.len() && !bin_matches(
                    num as int,
                    den as int,
                    n - 1 - t,
                    step as int,
                    size as int,
                ) ==> (#[trigger] tmp@[t]) == old(bins)@[n - 1 - t],
        decreases bins@.len(),
    {
        let j: usize = bins.len() - 1;
        let mut w: Window = bins.pop().unwrap();
        proof {
            assert(w == old(bins)@[j as int]);
        }
        let ghost w_prev = w.deep_view();
        if bin_match(num, den, j, step, size) {
            let copy = MethylationSite {
                chromosome: site.chromosome,
                location: site.location,
                strand: site.strand,
                original: site.original.clone(),
            };
            proof {
                assert(copy@ == site@);
            }
            w.push(copy);
            proof {
                assert(w.deep_view() =~= w_prev.push(site@));
            }
        }
        tmp.push(w);
    }
    let mut result: Vec<(Region, usize)> = Vec::new();
    while tmp.len() > 0
        invariant
            bins@.len() + tmp@.len() == n,
            n <= 0x8000_0000,
            -0x100_0000_0000 <= num <= 0x100_0000_0000,
            -0x2_0000_0000 <= den <= 0x2_0000_0000,
            forall|t: int|
                0 <= t < tmp@.len() && bin_matches(
                    num as int,
                    den as int,
                    n - 1 - t,
                    step as int,
                    size as int,
                ) ==> (#[trigger] tmp@[t]).deep_view() == old(bins)@[n - 1 - t].deep_view().push(
                    site@,
                ),
            forall|t: int|
                0 <= t < tmp@.len() && !bin_matches(
                    num as int,
                    den as int,
                    n - 1 - t,
                    step as int,
                    size as int,
                ) ==> (#[trigger] tmp@[t]) == old(bins)@[n - 1 - t],
            forall|k: int|
                0 <= k < bins@.len() && bin_matches(
                    num as int,
                    den as int,
                    k,
                    step as int,
                    size as int,
                ) ==> (#[trigger] bins@[k]).deep_view() == old(bins)@[k].deep_view().push(site@),
            forall|k: int|
                0 <= k < bins@.len() && !bin_matches(
                    num as int,
                    den as int,
                    k,
                    step as int,
                    size as int,
                ) ==> (#[trigger] bins@[k]) == old(bins)@[k],
            forall|k: int|
                0 <= k < result@.len() ==> ((#[trigger] result@[k]).0 == region && result@[k].1
                    < bins@.len() && bin_matches(
                    num as int,
                    den as int,
                    result@[k].1 as int,
                    step as int,
                    size as int,
                )),
            forall|j: int|
                0 <= j < bins@.len() && bin_matches(num as int, den as int, j, step as int,
                size as int) ==> result@.contains((region, j as usize)),
            forall|k1: int, k2: int|
                0 <= k1 < k2 < result@.len() ==> (#[trigger] result@[k1]).1 < (
                #[trigger] result@[k2]).1,
            result@.len() == bin_match_count(
                num as int,
                den as int,
                step as int,
                size as int,
                bins@.len() as nat,
            ),
        decreases tmp@.len(),
    {
        let k: usize = bins.len();
        let w2: Window = tmp.pop().unwrap();
        proof {
            assert(tmp@.len() + 1 + bins@.len() == n);
        }
        bins.push(w2);
        if bin_match(num, den, k, step, size) {
            let ghost res_prev = result@;
            result.push((region, k));
            proof {
                assert forall|j: int|
                    0 <= j < k + 1 && bin_matches(
                        num as int,
                        den as int,
                        j,
                        step as int,
                        size as int,
                    ) implies result@.contains((region, j as usize)) by {
                    if j < k {
                        let idx = choose|idx: int|
                            0 <= idx < res_prev.len() && res_prev[idx] == (region, j as usize);
                        assert(result@[idx] == (region, j as usize));
                    } else {
                        assert(result@[result@.len() - 1] == (region, j as usize));
                    }
                }
            }
        }
    }
    proof {
        assert forall|j: int| 0 <= j < n implies bins.deep_view()[j] == bins@[j].deep_view() by {}
        assert forall|j: int| 0 <= j < n implies old(bins).deep_view()[j] == old(
            bins,
        )@[j].deep_view() by {}
    }
    result
}


impl MethylationSite {
    /// Places this CG site in every window of its region that its position
    /// falls in, cloning the site into each matching bin, and returns the
    /// region-tagged index of every bin entered, in ascending order. With a
    /// step smaller than the window size consecutive bins overlap and one
    /// site can enter several.
    pub fn place_in_windows(&self, gene: &Gene, windows: &mut Windows, args: &Args) -> (r: Vec<
        (Region, usize),
    >)
        requires
            old(windows)@.bounded(),
        ensures
            final(windows)@ == place_spec(old(windows)@, self@, *gene, *args),
            final(windows)@.bounded(),
            forall|k: int|
                0 <= k < r@.len() ==> ((#[trigger] r@[k]).0 == region_of(self@, *gene) && r@[k].1
                    < region_bins(old(windows)@, region_of(self@, *gene)).len()
                    && site_matches_bin(self@, *gene, *args, r@[k].1 as int)),
            forall|i: int|
                0 <= i < region_bins(old(windows)@, region_of(self@, *gene)).len()
                    && site_matches_bin(self@, *gene, *args, i) ==> r@.contains(
                    (region_of(self@, *gene), i as usize),
                ),
            forall|k1: int, k2: int|
                0 <= k1 < k2 < r@.len() ==> (#[trigger] r@[k1]).1 < (#[trigger] r@[k2]).1,
            r@.len() == bin_match_count(
                position_num(self@, *gene, *args),
                position_den(self@, *gene, *args),
                args.window_step as int,
                args.window_size as int,
                region_bins(old(windows)@, region_of(self@, *gene)).len(),
            ),
    {
        let location: i64 = self.location as i64;
        let cutoff: i64 = args.cutoff as i64;
        let start: i64 = gene.start as i64;
        let end: i64 = gene.end as i64;
        let length: i64 = end - start;
        let offset: i64 = match self.strand {
            Strand::Sense => location - start,
            Strand::Antisense => end - location,
        };
        let region: Region = if offset < 0 {
            Region::Upstream
        } else if offset > length {
            Region::Downstream
        } else {
            Region::Gene
        };
        proof {
            assert(region == region_of(self@, *gene));
        }
        let raw: i64 = match (region, self.strand) {
            (Region::Upstream, Strand::Sense) => location - start + cutoff,
            (Region::Gene, Strand::Sense) => location - start,
            (Region::Downstream, Strand::Sense) => location - end,
            (Region::Upstream, Strand::Antisense) => end - location + cutoff,
            (Region::Gene, Strand::Antisense) => end - location,
            (Region::Downstream, Strand::Antisense) => start - location,
        };
        let (num, den): (i64, i64) = if args.absolute {
            (raw, 1)
        } else {
            let d: i64 = match region {
                Region::Gene => length,
                _ => cutoff,
            };
            (100 * raw, d)
        };
        proof {
            assert(num == position_num(self@, *gene, *args));
            assert(den == position_den(self@, *gene, *args));
        }
        let r: Vec<(Region, usize)> = match region {
            Region::Upstream => place_into_bins(
                &mut windows.upstream,
                self,
                region,
                num,
                den,
                args.window_step,
                args.window_size,
            ),
            Region::Gene => place_into_bins(
                &mut windows.gene,
                self,
                region,
                num,
                den,
                args.window_step,
                args.window_size,
            ),
            Region::Downstream => place_into_bins(
                &mut windows.downstream,
                self,
                region,
                num,
                den,
                args.window_step,
                args.window_size,
            ),
        };
        proof {
            assert(region_bins(windows@, region) =~= place_bins_spec(
                region_bins(old(windows)@, region),
                self@,
                *gene,
                *args,
            ));
        }
        r
    }
}

/// A site exactly on either boundary of a well-formed gene's interval
/// belongs to the gene region, never to a flank: the end boundary in
/// particular is gene body, not downstream.
pub proof fn lemma_boundary_in_gene(s: SiteV, g: Gene)
    requires
        g.wf(),
        s.location == g.start || s.location == g.end,
    ensures
        region_of(s, g) == Region::Gene,
{
}

/// Boundary placements under relative sizing with a unit step: a sense
/// site exactly at the gene's start falls in gene bin 0, one exactly at
/// its end falls in the last of the 100 gene bins, and one a single base
/// pair before the start falls in the last upstream bin (for any cutoff
/// of at least 91 base pairs; a smaller flank leaves that position short
/// of the last bin's span).
pub proof fn lemma_placement_boundaries(s: SiteV, g: Gene, a: Args)
    requires
        !a.absolute,
        a.window_step == 1,
        a.window_size >= 1,
        a.cutoff >= 91,
        g.wf(),
        gene_length(g) >= 1,
        s.strand == Strand::Sense,
    ensures
        s.location == g.start ==> region_of(s, g) == Region::Gene && site_matches_bin(s, g, a, 0),
        s.location == g.end ==> region_of(s, g) == Region::Gene && site_matches_bin(s, g, a, 99),
        s.location == g.start - 1 ==> region_of(s, g) == Region::Upstream && site_matches_bin(
            s,
            g,
            a,
            99,
        ),
{
    let len = gene_length(g);
    let size = a.window_size as int;
    let cutoff = a.cutoff as int;
    if s.location == g.start {
        assert(position_num(s, g, a) == 0);
        assert(position_den(s, g, a) == len);
        assert(0 <= (10 * (0 * 1) + 10 * size + 1) * len) by (nonlinear_arith)
            requires
                size >= 1,
                len >= 1,
        ;
        assert((10 * (0 * 1) - 1) * len <= 0) by (nonlinear_arith)
            requires
                len >= 1,
        ;
    } else if s.location == g.end {
        assert(position_num(s, g, a) == 100 * len);
        assert(position_den(s, g, a) == len);
        assert((10 * (99 * 1) - 1) * len <= 10 * (100 * len)) by (nonlinear_arith)
            requires
                len >= 1,
        ;
        assert(10 * (100 * len) <= (10 * (99 * 1) + 10 * size + 1) * len) by (nonlinear_arith)
            requires
                size >= 1,
                len >= 1,
        ;
    } else if s.location == g.start - 1 {
        assert(region_of(s, g) == Region::Upstream);
        assert(position_num(s, g, a) == 100 * (cutoff - 1));
        assert(position_den(s, g, a) == cutoff);
        assert((10 * (99 * 1) - 1) * cutoff <= 10 * (100 * (cutoff - 1))) by (nonlinear_arith)
            requires
                cutoff >= 91,
        ;
        assert(10 * (100 * (cutoff - 1)) <= (10 * (99 * 1) + 10 * size + 1) * cutoff)
            by (nonlinear_arith)
            requires
                size >= 1,
                cutoff >= 91,
        ;
    }
}

/// When the cutoff and the gene's length both equal 100, absolute and
/// relative sizing agree bin for bin: a percentage position then equals
/// the base-pair position it was scaled from.
pub proof fn lemma_relative_absolute_agree(s: SiteV, g: Gene, a_abs: Args, a_rel: Args, i: int)
    requires
        a_abs.absolute,
        !a_rel.absolute,
        a_abs.window_step == a_rel.window_step,
        a_abs.window_size == a_rel.window_size,
        a_abs.cutoff == a_rel.cutoff,
        a_rel.cutoff == 100,
        gene_length(g) == 100,
    ensures
        site_matches_bin(s, g, a_abs, i) == site_matches_bin(s, g, a_rel, i),
{
    let raw = raw_position(s, g, 100);
    assert(position_num(s, g, a_abs) == raw && position_den(s, g, a_abs) == 1);
    assert(position_num(s, g, a_rel) == 100 * raw && position_den(s, g, a_rel) == 100);
}

/// A site on a gene's chromosome and strand is in the gene under a zero
/// cutoff exactly when its location lies in the gene's interval, and a
/// cutoff smaller than the site's distance to the interval never admits it.
pub proof fn lemma_site_in_gene(s: SiteV, g: Gene, cutoff: int)
    requires
        s.chromosome == g.chromosome,
        s.strand == g.strand,
    ensures
        g.start <= s.location <= g.end ==> in_gene(s, g, 0),
        cutoff < g.start - s.location ==> !in_gene(s, g, cutoff),
        cutoff < s.location - g.end ==> !in_gene(s, g, cutoff),
{
}

/// On a sorted, disjoint, homogeneous bucket of well-formed genes, the
/// lookup returns a gene satisfying the containment test whenever one
/// exists, and `None` exactly when no gene of the bucket qualifies.
pub proof fn lemma_find_gene_exact(genome: Seq<GenesByStrand>, site: SiteV, cutoff: int)
    requires
        1 <= site.chromosome as int <= genome.len(),
        sorted_by_end(site_bucket(genome, site)),
        crate::genes::disjoint_by_end(site_bucket(genome, site)),
        homogeneous(site_bucket(genome, site), site.chromosome, site.strand),
        forall|i: int| 0 <= i < site_bucket(genome, site).len() ==> (#[trigger] site_bucket(
            genome,
            site,
        )[i]).wf(),
    ensures
        find_gene_spec(genome, site, cutoff) matches Some(g) ==> in_gene(site, g, cutoff)
            && site_bucket(genome, site).contains(g),
        find_gene_spec(genome, site, cutoff) is None ==> forall|i: int|
            0 <= i < site_bucket(genome, site).len() ==> !in_gene(
                site,
                #[trigger] site_bucket(genome, site)[i],
                cutoff,
            ),
{
    let bucket = site_bucket(genome, site);
    let loc = site.location as int;
    let c = lookup_candidate(bucket, loc, cutoff);
    lemma_lookup_candidate(bucket, loc, cutoff);
    if c < bucket.len() && in_gene(site, bucket[c], cutoff) {
        assert(site_bucket(genome, site).contains(bucket[c]));
    } else {
        assert forall|i: int| 0 <= i < bucket.len() implies !in_gene(
            site,
            #[trigger] bucket[i],
            cutoff,
        ) by {
            if i < c {
                assert(bucket[i].end + cutoff < loc);
            } else if c < bucket.len() && i > c {
                assert(loc + cutoff < bucket[c].start);
                assert(bucket[c].end < bucket[i].start);
                assert(bucket[c].start <= bucket[c].end);
            }
        }
    }
}

} // verus!
