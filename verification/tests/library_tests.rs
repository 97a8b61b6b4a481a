use methylome::arguments::Args;
use methylome::genes::{Gene, GenesByStrand, Strand};
use methylome::genes::{build_genome, max_gene_length};
use methylome::methylation_site::{MethylationSite, ParseError};
use methylome::text::{parse_i32, parse_u8, split_line};
use methylome::windows::{extract_windows, join_originals, IndexError, Windows};

fn args_relative(cutoff: i32, window_size: i32, window_step: i32) -> Args {
    Args {
        methylome: String::from("not relevant"),
        genome: String::from("not relevant"),
        window_size,
        window_step,
        output_dir: String::from("not relevant"),
        absolute: false,
        cutoff,
        invert: false,
    }
}

fn site(location: i32, original: &str) -> MethylationSite {
    MethylationSite {
        chromosome: 1,
        location,
        strand: Strand::Sense,
        original: String::from(original),
    }
}

#[test]
fn test_normalized_step_defaults_to_size() {
    let args = Args { window_step: 0, window_size: 5, ..args_relative(2048, 5, 0) };
    let n = args.normalized();
    assert_eq!(n.window_step, 5);
    assert_eq!(n.window_size, 5);
    let kept = args_relative(2048, 5, 3).normalized();
    assert_eq!(kept.window_step, 3);
}

#[test]
fn test_split_line_fields() {
    let fields = split_line("a\tb\tc");
    assert_eq!(fields, vec![String::from("a"), String::from("b"), String::from("c")]);
    assert_eq!(split_line(""), vec![String::new()]);
    assert_eq!(split_line("\t"), vec![String::new(), String::new()]);
}

#[test]
fn test_parse_u8_cases() {
    assert_eq!(parse_u8("0"), Some(0));
    assert_eq!(parse_u8("255"), Some(255));
    assert_eq!(parse_u8("+12"), Some(12));
    assert_eq!(parse_u8("256"), None);
    assert_eq!(parse_u8(""), None);
    assert_eq!(parse_u8("+"), None);
    assert_eq!(parse_u8("-1"), None);
    assert_eq!(parse_u8("12a"), None);
}

#[test]
fn test_parse_i32_cases() {
    assert_eq!(parse_i32("23151"), Some(23151));
    assert_eq!(parse_i32("-7"), Some(-7));
    assert_eq!(parse_i32("+7"), Some(7));
    assert_eq!(parse_i32("2147483647"), Some(2147483647));
    assert_eq!(parse_i32("-2147483648"), Some(-2147483648));
    assert_eq!(parse_i32("2147483648"), None);
    assert_eq!(parse_i32("-2147483649"), None);
    assert_eq!(parse_i32(""), None);
    assert_eq!(parse_i32("-"), None);
    assert_eq!(parse_i32("1.5"), None);
}

#[test]
fn test_parse_error_kinds() {
    let short = MethylationSite::from_methylome_file_line("a\tb", false);
    assert_eq!(short.unwrap_err(), ParseError::WrongFieldCount);

    let context = MethylationSite::from_methylome_file_line(
        "1\t23151\t+\tCHH\t0\t8\t0.9999\tU\t0.0025",
        false,
    );
    assert_eq!(context.unwrap_err(), ParseError::UnrecognizedContext);

    let chromosome = MethylationSite::from_methylome_file_line(
        "300\t23151\t+\tCG\t0\t8\t0.9999\tU\t0.0025",
        false,
    );
    assert_eq!(chromosome.unwrap_err(), ParseError::MalformedNumber);

    let location = MethylationSite::from_methylome_file_line(
        "1\t99999999999\t+\tCG\t0\t8\t0.9999\tU\t0.0025",
        false,
    );
    assert_eq!(location.unwrap_err(), ParseError::MalformedNumber);
}

#[test]
fn test_parse_strand_inversion() {
    let plain = MethylationSite::from_methylome_file_line(
        "1\t10\t+\tCG\t0\t8\t0.9\tU\t0.1",
        false,
    )
    .unwrap();
    assert_eq!(plain.strand, Strand::Sense);
    let inverted = MethylationSite::from_methylome_file_line(
        "1\t10\t+\tCG\t0\t8\t0.9\tU\t0.1",
        true,
    )
    .unwrap();
    assert_eq!(inverted.strand, Strand::Antisense);
    let minus_inverted = MethylationSite::from_methylome_file_line(
        "1\t10\t-\tCG\t0\t8\t0.9\tU\t0.1",
        true,
    )
    .unwrap();
    assert_eq!(minus_inverted.strand, Strand::Sense);
    let keeps_line = MethylationSite::from_methylome_file_line(
        "1\t10\t-\tCG\t0\t8\t0.9\tU\t0.1",
        false,
    )
    .unwrap();
    assert_eq!(keeps_line.original, "1\t10\t-\tCG\t0\t8\t0.9\tU\t0.1");
}

#[test]
fn test_windows_new_counts() {
    let mut args = args_relative(100, 10, 3);
    args.absolute = true;
    let w = Windows::new(1000, &args);
    assert_eq!(w.gene.len(), 333);
    assert_eq!(w.upstream.len(), 33);
    assert_eq!(w.downstream.len(), 33);
    let rel = Windows::new(1000, &args_relative(2048, 10, 10));
    assert_eq!(rel.gene.len(), 100);
    assert_eq!(rel.upstream.len(), 100);
    assert_eq!(rel.downstream.len(), 100);
}

#[test]
fn test_invert_arrangement_and_round_trip() {
    let a = site(1, "a");
    let b = site(2, "b");
    let c = site(3, "c");
    let d = site(4, "d");
    let w = Windows {
        upstream: vec![vec![a.clone()], vec![]],
        gene: vec![vec![b.clone()], vec![c.clone()]],
        downstream: vec![vec![], vec![], vec![d.clone()]],
    };
    let original = Windows {
        upstream: vec![vec![a.clone()], vec![]],
        gene: vec![vec![b.clone()], vec![c.clone()]],
        downstream: vec![vec![], vec![], vec![d.clone()]],
    };
    let flipped = w.invert();
    assert_eq!(flipped.upstream, vec![vec![d.clone()], vec![], vec![]]);
    assert_eq!(flipped.gene, vec![vec![c], vec![b]]);
    assert_eq!(flipped.downstream, vec![vec![], vec![a]]);
    assert_eq!(flipped.invert(), original);
}

#[test]
fn test_join_originals_bodies() {
    assert_eq!(join_originals(&vec![]), "");
    assert_eq!(join_originals(&vec![site(1, "one")]), "one");
    assert_eq!(join_originals(&vec![site(1, "one"), site(2, "two"), site(3, "three")]),
        "one\ntwo\nthree");
}

#[test]
fn test_distribution_text() {
    let s = site(1, "x");
    let w = Windows {
        upstream: vec![vec![], vec![s.clone()]],
        gene: vec![vec![s.clone(), s.clone()]],
        downstream: vec![],
    };
    assert_eq!(
        w.distribution(),
        "Upstream\n0,0\n1,1\nGene\n0,2\nDownstream\nCombined\n0,0\n1,1\n2,2\n"
    );
}

#[test]
fn test_distribution_multi_digit_rows() {
    let w = Windows {
        upstream: vec![Vec::new(); 11],
        gene: vec![vec![site(1, "x"); 12]],
        downstream: vec![],
    };
    let text = w.distribution();
    assert!(text.starts_with("Upstream\n0,0\n1,0\n"));
    assert!(text.contains("\n9,0\n10,0\nGene\n0,12\nDownstream\nCombined\n"));
    assert!(text.ends_with("\n10,0\n11,12\n"));
}

#[test]
fn test_max_gene_length_cases() {
    let genes = vec![
        Gene { chromosome: 1, start: 0, end: 50, strand: Strand::Sense, name: String::new() },
        Gene { chromosome: 1, start: 100, end: 800, strand: Strand::Sense, name: String::new() },
    ];
    assert_eq!(max_gene_length(&genes, true), 700);
    assert_eq!(max_gene_length(&genes, false), 100);
    let short = vec![Gene {
        chromosome: 1,
        start: 0,
        end: 50,
        strand: Strand::Sense,
        name: String::new(),
    }];
    assert_eq!(max_gene_length(&short, true), 100);
}

#[test]
fn test_build_genome_buckets_sorted() {
    let genes = vec![
        Gene { chromosome: 2, start: 25, end: 30, strand: Strand::Sense, name: String::new() },
        Gene { chromosome: 1, start: 5, end: 10, strand: Strand::Antisense, name: String::new() },
        Gene { chromosome: 2, start: 15, end: 20, strand: Strand::Sense, name: String::new() },
    ];
    let genome = build_genome(&genes);
    assert_eq!(genome.len(), 2);
    assert_eq!(genome[0].antisense.len(), 1);
    assert_eq!(genome[0].sense.len(), 0);
    assert_eq!(genome[1].sense.len(), 2);
    assert_eq!(genome[1].sense[0].end, 20);
    assert_eq!(genome[1].sense[1].end, 30);
}

#[test]
fn test_find_gene_no_match() {
    let mut genes = GenesByStrand::new();
    genes.insert(Gene {
        chromosome: 1,
        start: 100,
        end: 200,
        strand: Strand::Sense,
        name: String::new(),
    });
    let genome = vec![genes];
    let far = site(10_000, "");
    assert!(far.find_gene(&genome, 50).is_none());
}

#[test]
fn test_find_gene_matches_linear_scan() {
    // Disjoint genes per chromosome and strand, with gaps wider than twice
    // the cutoff so that at most one gene can ever qualify for a site.
    let cutoff: i32 = 10;
    let mut seed: u64 = 42;
    let mut next = |bound: u64| -> i32 {
        seed = seed.wrapping_mul(6364136223846793005).wrapping_add(1442695040888963407);
        ((seed >> 33) % bound) as i32
    };
    let mut genome = Vec::new();
    for chromosome in 1..=2u8 {
        let mut buckets = GenesByStrand::new();
        for strand in [Strand::Sense, Strand::Antisense] {
            for i in 0..20 {
                buckets.insert(Gene {
                    chromosome,
                    start: 100 * i,
                    end: 100 * i + next(50),
                    strand,
                    name: String::new(),
                });
            }
        }
        genome.push(buckets);
    }
    for _ in 0..200 {
        let cg = MethylationSite {
            chromosome: 1 + next(2) as u8,
            location: next(2100),
            strand: if next(2) == 0 { Strand::Sense } else { Strand::Antisense },
            original: String::new(),
        };
        let chromosome = &genome[(cg.chromosome - 1) as usize];
        let bucket = match cg.strand {
            Strand::Sense => &chromosome.sense,
            Strand::Antisense => &chromosome.antisense,
        };
        let expected = bucket.iter().find(|g| cg.is_in_gene(g, cutoff));
        assert_eq!(cg.find_gene(&genome, cutoff), expected);
    }
}

#[test]
fn test_extract_windows_scenario() {
    let genes = vec![Gene {
        chromosome: 1,
        start: 100,
        end: 200,
        strand: Strand::Sense,
        name: String::from("gene1"),
    }];
    let genome = build_genome(&genes);
    let args = args_relative(100, 10, 10);
    let lines = vec![
        String::from("seqnames\tstart\tstrand\tcontext\tcounts.methylated\tcounts.total\tposteriorMax\tstatus\trc.meth.lvl"),
        String::from("1\t80\t+\tCG\t0\t8\t0.9\tU\t0.1"),
        String::from("1\t100\t+\tCG\t0\t8\t0.9\tU\t0.1"),
        String::from("1\t150\t+\tCG\t0\t8\t0.9\tU\t0.1"),
        String::from("1\t200\t+\tCG\t0\t8\t0.9\tU\t0.1"),
        String::from("1\t201\t+\tCG\t0\t8\t0.9\tU\t0.1"),
        String::from("garbage line that is skipped"),
    ];
    let windows = extract_windows(&lines, &genome, 100, &args).unwrap();

    // Position 80 sits 80% into the upstream flank: bins 7 and 8 overlap it.
    assert_eq!(windows.upstream[7].len(), 1);
    assert_eq!(windows.upstream[8].len(), 1);
    assert_eq!(windows.upstream[8][0].original, "1\t80\t+\tCG\t0\t8\t0.9\tU\t0.1");
    // The gene start lands in gene bin 0 alone.
    assert_eq!(windows.gene[0].len(), 1);
    assert_eq!(windows.gene[0][0].location, 100);
    // The midpoint (50%) falls into overlapping bins 4 and 5.
    assert!(windows.gene[4].iter().any(|s| s.location == 150));
    assert!(windows.gene[5].iter().any(|s| s.location == 150));
    // The gene end (100%) stays in the gene region, bins 9 and 10.
    assert!(windows.gene[9].iter().any(|s| s.location == 200));
    assert!(windows.gene[10].iter().any(|s| s.location == 200));
    assert!(!windows.downstream.iter().any(|w| w.iter().any(|s| s.location == 200)));
    // One base past the end is downstream bin 0.
    assert_eq!(windows.downstream[0].len(), 1);
    assert_eq!(windows.downstream[0][0].location, 201);

    // Every placement shows up in the distribution counts, which sum to the
    // number of recorded placements: 2 + 1 + 2 + 2 + 1.
    let total: usize = windows
        .upstream
        .iter()
        .chain(windows.gene.iter())
        .chain(windows.downstream.iter())
        .map(|w| w.len())
        .sum();
    assert_eq!(total, 8);
}

#[test]
fn test_extract_windows_skips_header_row() {
    let genes = vec![Gene {
        chromosome: 1,
        start: 100,
        end: 200,
        strand: Strand::Sense,
        name: String::new(),
    }];
    let genome = build_genome(&genes);
    let args = args_relative(100, 10, 10);
    let lines = vec![String::from("1\t150\t+\tCG\t0\t8\t0.9\tU\t0.1")];
    let windows = extract_windows(&lines, &genome, 100, &args).unwrap();
    let total: usize = windows
        .upstream
        .iter()
        .chain(windows.gene.iter())
        .chain(windows.downstream.iter())
        .map(|w| w.len())
        .sum();
    assert_eq!(total, 0);
}

#[test]
fn test_extract_windows_chromosome_out_of_range() {
    let genes = vec![Gene {
        chromosome: 1,
        start: 100,
        end: 200,
        strand: Strand::Sense,
        name: String::new(),
    }];
    let genome = build_genome(&genes);
    let args = args_relative(100, 10, 10);
    let lines = vec![
        String::from("header"),
        String::from("7\t150\t+\tCG\t0\t8\t0.9\tU\t0.1"),
    ];
    let result = extract_windows(&lines, &genome, 100, &args);
    assert_eq!(result.unwrap_err(), IndexError::ChromosomeOutOfRange);
}
