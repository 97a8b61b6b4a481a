use vstd::prelude::*;
use vstd::multiset::Multiset;

verus! {

broadcast use {vstd::seq_lib::group_to_multiset_ensures, vstd::multiset::lemma_multiset_empty_len};

/// The two strand orientations of a gene or methylation site.
#[derive(Clone, Copy, PartialEq, Eq, Debug, Structural)]
pub enum Strand {
    Sense,
    Antisense,
}

/// Position of a site relative to a gene's coding interval.
#[derive(Clone, Copy, PartialEq, Eq, Debug, Structural)]
pub enum Region {
    Upstream,
    Gene,
    Downstream,
}

/// One annotated gene. Immutable after construction; `start <= end` is the
/// intended invariant of well-formed annotation data.
#[derive(Clone, PartialEq, Eq, Debug)]
pub struct Gene {
    pub chromosome: u8,
    pub start: i32,
    pub end: i32,
    pub strand: Strand,
    pub name: String,
}

impl Gene {
    /// A coding interval that is not inverted.
    pub open spec fn wf(self) -> bool {
        self.start <= self.end
    }

    /// An equal gene value, built field by field so that the copy is known
    /// to equal the original.
    pub fn duplicate(&self) -> (r: Gene)
        ensures
            r == *self,
    {
        Gene {
            chromosome: self.chromosome,
            start: self.start,
            end: self.end,
            strand: self.strand,
            name: self.name.clone(),
        }
    }
}

/// The genes of one chromosome, separated by strand. Each bucket is kept
/// sorted ascending by `end`, the order the index lookup searches in.
#[derive(Clone, PartialEq, Eq, Debug)]
pub struct GenesByStrand {
    pub sense: Vec<Gene>,
    pub antisense: Vec<Gene>,
}

/// Genes sorted ascending by their `end` coordinate.
pub open spec fn sorted_by_end(s: Seq<Gene>) -> bool {
    forall|i: int, j: int| #![trigger s[i], s[j]] 0 <= i < j < s.len() ==> s[i].end <= s[j].end
}

/// Every strand bucket of every chromosome sorted ascending by `end`: the
/// shape the gene index keeps and the lookup relies on.
pub open spec fn genome_wf(genome: Seq<GenesByStrand>) -> bool {
    forall|c: int|
        0 <= c < genome.len() ==> sorted_by_end((#[trigger] genome[c]).sense@) && sorted_by_end(
            genome[c].antisense@,
        )
}

/// Genes pairwise non-overlapping once sorted by `end`: each gene ends
/// strictly before the next one starts.
pub open spec fn disjoint_by_end(s: Seq<Gene>) -> bool {
    forall|i: int, j: int| #![trigger s[i], s[j]] 0 <= i < j < s.len() ==> s[i].end < s[j].start
}

/// First index at which a gene ending at `e` can be inserted while keeping
/// the sequence sorted by `end`: the first position whose gene ends after `e`.
pub open spec fn insert_pos(s: Seq<Gene>, e: int) -> int
    decreases s.len(),
{
    if s.len() == 0 {
        0
    } else if s[0].end > e {
        0
    } else {
        1 + insert_pos(s.skip(1), e)
    }
}

/// `insert_pos` is the first index whose gene ends after `e`.
pub proof fn lemma_insert_pos(s: Seq<Gene>, e: int)
    ensures
        0 <= insert_pos(s, e) <= s.len(),
        forall|j: int| 0 <= j < insert_pos(s, e) ==> (#[trigger] s[j]).end <= e,
        insert_pos(s, e) < s.len() ==> s[insert_pos(s, e)].end > e,
    decreases s.len(),
{
    if s.len() > 0 && !(s[0].end > e) {
        lemma_insert_pos(s.skip(1), e);
        assert forall|j: int| 0 <= j < insert_pos(s, e) implies (#[trigger] s[j]).end <= e by {
            if j > 0 {
                assert(s.skip(1)[j - 1] == s[j]);
            }
        }
    }
}

/// Inserting at `insert_pos` preserves sortedness by `end`.
pub proof fn lemma_sorted_insert(s: Seq<Gene>, g: Gene)
    requires
        sorted_by_end(s),
    ensures
        sorted_by_end(s.insert(insert_pos(s, g.end as int), g)),
{
    lemma_insert_pos(s, g.end as int);
    let p = insert_pos(s, g.end as int);
    let t = s.insert(p, g);
    s.insert_ensures(p, g);
    assert forall|i: int, j: int| #![trigger t[i], t[j]] 0 <= i < j < t.len() implies t[i].end
        <= t[j].end by {
        if i < p && j < p {
            assert(t[i] == s[i] && t[j] == s[j]);
        } else if i < p && j == p {
            assert(t[i] == s[i] && t[j] == g);
        } else if i < p && j > p {
            assert(t[i] == s[i] && t[j] == s[j - 1]);
        } else if i == p && j > p {
            assert(t[i] == g && t[j] == s[j - 1]);
        } else if i > p && j > p {
            assert(t[i] == s[i - 1] && t[j] == s[j - 1]);
        }
    }
}

/// Inserts `gene` into `v` at the first position that keeps `v` sorted by
/// `end`, assuming it was; genes with equal ends keep their insertion order.
fn insert_sorted(v: &mut Vec<Gene>, gene: Gene)
    ensures
        final(v)@ == old(v)@.insert(insert_pos(old(v)@, gene.end as int), gene),
{
    proof {
        lemma_insert_pos(v@, gene.end as int);
    }
    let mut k: usize = 0;
    while k < v.len() && v[k].end <= gene.end
        invariant
            0 <= k <= v.len(),
            forall|j: int| 0 <= j < k ==> (#[trigger] v@[j]).end <= gene.end,
            v == old(v),
        decreases v.len() - k,
    {
        k = k + 1;
    }
    proof {
        let p = insert_pos(v@, gene.end as int);
        if p < k {
            assert(v@[p].end > gene.end);
        }
        if k < p {
            assert(v@[k as int].end <= gene.end);
        }
        assert(p == k);
    }
    v.insert(k, gene);
}

/// Every gene of the bucket lies on the given chromosome and strand, as the
/// index construction guarantees.
pub open spec fn homogeneous(s: Seq<Gene>, chromosome: u8, strand: Strand) -> bool {
    forall|i: int| 0 <= i < s.len() ==> (#[trigger] s[i]).chromosome == chromosome && s[i].strand
        == strand
}

/// The largest chromosome number any of the genes names, zero when there
/// are none.
pub open spec fn max_chromosome(genes: Seq<Gene>) -> int
    decreases genes.len(),
{
    if genes.len() == 0 {
        0
    } else {
        let m = max_chromosome(genes.drop_last());
        if genes.last().chromosome > m {
            genes.last().chromosome as int
        } else {
            m
        }
    }
}

/// No gene names a chromosome beyond `max_chromosome`.
pub proof fn lemma_max_chromosome(genes: Seq<Gene>)
    ensures
        forall|i: int| 0 <= i < genes.len() ==> (#[trigger] genes[i]).chromosome
            <= max_chromosome(genes),
        max_chromosome(genes) <= 255,
    decreases genes.len(),
{
    if genes.len() > 0 {
        lemma_max_chromosome(genes.drop_last());
        assert forall|i: int| 0 <= i < genes.len() implies (#[trigger] genes[i]).chromosome
            <= max_chromosome(genes) by {
            if i < genes.len() - 1 {
                assert(genes.drop_last()[i] == genes[i]);
            }
        }
    }
}

/// The genes of `genes` on the given chromosome and strand, as a multiset.
pub open spec fn bucket_mset(genes: Seq<Gene>, chromosome: int, strand: Strand) -> Multiset<Gene>
    decreases genes.len(),
{
    if genes.len() == 0 {
        Multiset::empty()
    } else {
        let rest = bucket_mset(genes.drop_last(), chromosome, strand);
        if genes.last().chromosome == chromosome && genes.last().strand == strand {
            rest.insert(genes.last())
        } else {
            rest
        }
    }
}

impl GenesByStrand {
    /// An empty pair of strand buckets.
    pub fn new() -> (r: GenesByStrand)
        ensures
            r.sense@ == Seq::<Gene>::empty(),
            r.antisense@ == Seq::<Gene>::empty(),
    {
        GenesByStrand { sense: Vec::new(), antisense: Vec::new() }
    }

    /// Inserts a gene into the bucket of its strand, at the first position
    /// that keeps the bucket sorted ascending by `end`; the other bucket is
    /// untouched.
    pub fn insert(&mut self, gene: Gene)
        ensures
            gene.strand == Strand::Sense ==> {
                &&& final(self).sense@ == old(self).sense@.insert(
                    insert_pos(old(self).sense@, gene.end as int),
                    gene,
                )
                &&& final(self).antisense == old(self).antisense
            },
            gene.strand == Strand::Antisense ==> {
                &&& final(self).antisense@ == old(self).antisense@.insert(
                    insert_pos(old(self).antisense@, gene.end as int),
                    gene,
                )
                &&& final(self).sense == old(self).sense
            },
    {
        match gene.strand {
            Strand::Sense => insert_sorted(&mut self.sense, gene),
            Strand::Antisense => insert_sorted(&mut self.antisense, gene),
        }
    }
}

/// The longest gene length to size absolute windows for: the maximum of
/// the genes' interval lengths, floored at 100 base pairs.
pub open spec fn max_length(genes: Seq<Gene>) -> int
    decreases genes.len(),
{
    if genes.len() == 0 {
        100
    } else {
        let m = max_length(genes.drop_last());
        let l = genes.last().end - genes.last().start;
        if l > m {
            l
        } else {
            m
        }
    }
}

/// The gene length absolute window sizing is based on: the longest interval
/// of any gene, floored at 100; under relative sizing positions are
/// percentages and the answer is always 100.
pub fn max_gene_length(genes: &Vec<Gene>, absolute: bool) -> (r: i32)
    requires
        forall|i: int|
            0 <= i < genes@.len() ==> -0x8000_0000 <= (#[trigger] genes@[i]).end - genes@[i].start
                <= 0x7fff_ffff,
    ensures
        absolute ==> r as int == max_length(genes@),
        !absolute ==> r == 100,
{
    if !absolute {
        return 100;
    }
    let mut m: i32 = 100;
    let mut j: usize = 0;
    while j < genes.len()
        invariant
            j <= genes@.len(),
            forall|i: int|
                0 <= i < genes@.len() ==> -0x8000_0000 <= (#[trigger] genes@[i]).end
                    - genes@[i].start <= 0x7fff_ffff,
            m as int == max_length(genes@.take(j as int)),
        decreases genes@.len() - j,
    {
        let length: i32 = genes[j].end - genes[j].start;
        if length > m {
            m = length;
        }
        proof {
            assert(genes@.take(j + 1).drop_last() =~= genes@.take(j as int));
            assert(genes@.take(j + 1).last() == genes@[j as int]);
        }
        j = j + 1;
    }
    proof {
        assert(genes@.take(genes@.len() as int) =~= genes@);
    }
    m
}

/// Builds the gene index: one `GenesByStrand` per chromosome, densely
/// numbered from 1 to the highest chromosome any gene names, each strand
/// bucket holding exactly the genes of that chromosome and strand, sorted
/// ascending by `end`.
pub fn build_genome(genes: &Vec<Gene>) -> (r: Vec<GenesByStrand>)
    requires
        genes@.len() >= 1,
        forall|i: int| 0 <= i < genes@.len() ==> 1 <= (#[trigger] genes@[i]).chromosome,
    ensures
        r@.len() == max_chromosome(genes@),
        genome_wf(r@),
        forall|c: int|
            0 <= c < r@.len() ==> homogeneous((#[trigger] r@[c]).sense@, (c + 1) as u8,
            Strand::Sense) && homogeneous(r@[c].antisense@, (c + 1) as u8, Strand::Antisense),
        forall|c: int|
            0 <= c < r@.len() ==> (#[trigger] r@[c]).sense@.to_multiset() == bucket_mset(
                genes@,
                c + 1,
                Strand::Sense,
            ) && r@[c].antisense@.to_multiset() == bucket_mset(genes@, c + 1, Strand::Antisense),
{
    let mut maxc: u8 = 0;
    let mut j: usize = 0;
    while j < genes.len()
        invariant
            j <= genes@.len(),
            maxc as int == max_chromosome(genes@.take(j as int)),
        decreases genes@.len() - j,
    {
        let c: u8 = genes[j].chromosome;
        proof {
            assert(genes@.take(j + 1).drop_last() =~= genes@.take(j as int));
            assert(genes@.take(j + 1).last() == genes@[j as int]);
        }
        if c > maxc {
            maxc = c;
        }
        j = j + 1;
    }
    proof {
        assert(genes@.take(genes@.len() as int) =~= genes@);
    }
    let n: usize = maxc as usize;
    let mut r: Vec<GenesByStrand> = Vec::new();
    let mut k: usize = 0;
    while k < n
        invariant
            k <= n,
            r@.len() == k,
            forall|c: int|
                0 <= c < k ==> (#[trigger] r@[c]).sense@ == Seq::<Gene>::empty()
                    && r@[c].antisense@ == Seq::<Gene>::empty(),
        decreases n - k,
    {
        r.push(GenesByStrand::new());
        k = k + 1;
    }
    proof {
        assert(Seq::<Gene>::empty().to_multiset().len() == 0);
        assert forall|c: int, s: Strand| true implies bucket_mset(genes@.take(0), c, s)
            == Multiset::<Gene>::empty() by {
            assert(genes@.take(0).len() == 0);
        }
    }
    let mut j2: usize = 0;
    while j2 < genes.len()
        invariant
            j2 <= genes@.len(),
            genes@.len() >= 1,
            forall|i: int| 0 <= i < genes@.len() ==> 1 <= (#[trigger] genes@[i]).chromosome,
            r@.len() == max_chromosome(genes@),
            genome_wf(r@),
            forall|c: int|
                0 <= c < r@.len() ==> homogeneous((#[trigger] r@[c]).sense@, (c + 1) as u8,
                Strand::Sense) && homogeneous(r@[c].antisense@, (c + 1) as u8, Strand::Antisense),
            forall|c: int|
                0 <= c < r@.len() ==> (#[trigger] r@[c]).sense@.to_multiset() == bucket_mset(
                    genes@.take(j2 as int),
                    c + 1,
                    Strand::Sense,
                ) && r@[c].antisense@.to_multiset() == bucket_mset(
                    genes@.take(j2 as int),
                    c + 1,
                    Strand::Antisense,
                ),
        decreases genes@.len() - j2,
    {
        proof {
            lemma_max_chromosome(genes@);
        }
        let g: Gene = genes[j2].duplicate();
        let c: usize = (g.chromosome - 1) as usize;
        let ghost r0 = r@;
        let mut bucket: GenesByStrand = r.remove(c);
        let ghost b0 = bucket;
        proof {
            assert(bucket == r0[c as int]);
            lemma_insert_pos(b0.sense@, g.end as int);
            lemma_insert_pos(b0.antisense@, g.end as int);
            if g.strand == Strand::Sense {
                lemma_sorted_insert(b0.sense@, g);
                b0.sense@.insert_ensures(insert_pos(b0.sense@, g.end as int), g);
            } else {
                lemma_sorted_insert(b0.antisense@, g);
                b0.antisense@.insert_ensures(insert_pos(b0.antisense@, g.end as int), g);
            }
        }
        bucket.insert(g);
        r.insert(c, bucket);
        proof {
            let rm = r0.remove(c as int);
            assert forall|d: int| 0 <= d < r@.len() implies r@[d] == (if d == c as int {
                bucket
            } else {
                r0[d]
            }) by {
                if d < c as int {
                    assert(rm[d] == r0[d]);
                } else if d > c as int {
                    assert(rm[d - 1] == r0[d]);
                }
            }
            assert(genes@.take(j2 + 1).drop_last() =~= genes@.take(j2 as int));
            assert(genes@.take(j2 + 1).last() == genes@[j2 as int]);
            assert forall|c2: int| 0 <= c2 < r@.len() implies (#[trigger] r@[
            c2]).sense@.to_multiset() == bucket_mset(genes@.take(j2 + 1), c2 + 1, Strand::Sense)
                && r@[c2].antisense@.to_multiset() == bucket_mset(
                genes@.take(j2 + 1),
                c2 + 1,
                Strand::Antisense,
            ) by {
                if c2 == c as int {
                    if g.strand == Strand::Sense {
                        assert(bucket.sense@.to_multiset() == b0.sense@.to_multiset().insert(g));
                    } else {
                        assert(bucket.antisense@.to_multiset()
                            == b0.antisense@.to_multiset().insert(g));
                    }
                }
            }
            assert forall|c2: int| 0 <= c2 < r@.len() implies homogeneous(
                (#[trigger] r@[c2]).sense@,
                (c2 + 1) as u8,
                Strand::Sense,
            ) && homogeneous(r@[c2].antisense@, (c2 + 1) as u8, Strand::Antisense) by {}
            assert(genome_wf(r@));
        }
        j2 = j2 + 1;
    }
    proof {
        assert(genes@.take(genes@.len() as int) =~= genes@);
    }
    r
}

} // verus!
