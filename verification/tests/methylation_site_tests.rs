use methylome::arguments::Args;
use methylome::genes::{Gene, GenesByStrand, Strand};
use methylome::methylation_site::MethylationSite;
use methylome::windows::Windows;

fn gene() -> Gene {
    Gene { chromosome: 1, start: 50, end: 100, strand: Strand::Sense, name: String::new() }
}

fn within_cg() -> MethylationSite {
    MethylationSite { chromosome: 1, location: 80, strand: Strand::Sense, original: String::new() }
}

fn opposite_strand_cg() -> MethylationSite {
    MethylationSite {
        chromosome: 1,
        location: 80,
        strand: Strand::Antisense,
        original: String::new(),
    }
}

fn higher_cg() -> MethylationSite {
    MethylationSite { chromosome: 1, location: 150, strand: Strand::Sense, original: String::new() }
}

fn lower_cg() -> MethylationSite {
    MethylationSite { chromosome: 1, location: 0, strand: Strand::Sense, original: String::new() }
}

#[test]
fn test_instantiate_from_methylome_file_line() {
    let line = "1\t23151\t+\tCG\t0\t8\t0.9999\tU\t0.0025";
    let cg = MethylationSite::from_methylome_file_line(line, false).unwrap();
    assert_eq!(cg.chromosome, 1);
}

#[test]
fn test_instantiate_from_methylome_file_line_invalid_line() {
    let line = "1\t23151\t+\tCG\t0\t8\t0.9999\t";
    let cg = MethylationSite::from_methylome_file_line(line, false);
    assert!(cg.is_err());
}

#[test]
fn test_instantiate_from_methylome_file_line_invalid_chromosome() {
    let line = "X\t23151\t+\tCG\t0\t8\t0.9999\tU\t0.0025";
    let cg = MethylationSite::from_methylome_file_line(line, false);
    assert!(cg.is_err());
}

#[test]
fn test_is_in_gene() {
    assert!(within_cg().is_in_gene(&gene(), 0));
    assert!(!higher_cg().is_in_gene(&gene(), 0));
    assert!(higher_cg().is_in_gene(&gene(), 50));
    assert!(!lower_cg().is_in_gene(&gene(), 0));
    assert!(lower_cg().is_in_gene(&gene(), 50));
}

#[test]
fn test_find_gene() {
    let mut genes = GenesByStrand::new();
    for i in 0..100 {
        genes.insert(Gene {
            chromosome: 1,
            start: i,
            end: i + 50,
            strand: Strand::Sense,
            name: String::new(),
        });
    }

    let genome = vec![genes.clone()];
    assert!(opposite_strand_cg().find_gene(&genome, 0).is_none());
    assert_eq!(Some(within_cg().find_gene(&genome, 0)), Some(genes.sense.get(30)));
    assert_eq!(Some(higher_cg().find_gene(&genome, 50)), Some(genes.sense.get(50)));
    assert_eq!(Some(lower_cg().find_gene(&genome, 50)), Some(genes.sense.get(0)));
}

#[test]
fn test_extract_gene() {}

#[test]
fn test_place_site_absolute() {
    let args = Args {
        invert: false,
        absolute: true,
        cutoff: 1000,
        genome: String::from("not relevant"),
        methylome: String::from("also not relevant"),
        output_dir: String::from("also not relevant"),
        window_size: 2,
        window_step: 1,
    };
    let all_within_gene = Gene {
        chromosome: 1,
        start: 1000,
        end: 2000,
        strand: Strand::Sense,
        name: String::new(),
    };
    let all_upstream_gene = Gene {
        chromosome: 1,
        start: 2000,
        end: 3000,
        strand: Strand::Sense,
        name: String::new(),
    };
    let all_downstream_gene = Gene {
        chromosome: 1,
        start: 0,
        end: 1000,
        strand: Strand::Sense,
        name: String::new(),
    };

    let mut windows = Windows::new(1000, &args);
    for i in 1..1000 {
        let cg = MethylationSite {
            chromosome: 1,
            location: i + 1000,
            strand: Strand::Sense,
            original: String::new(),
        };
        cg.place_in_windows(&all_upstream_gene, &mut windows, &args);
        cg.place_in_windows(&all_within_gene, &mut windows, &args);
        cg.place_in_windows(&all_downstream_gene, &mut windows, &args);

        assert!(windows.upstream[i as usize].contains(&cg));
        assert!(windows.gene[i as usize].contains(&cg));
        assert!(windows.downstream[i as usize].contains(&cg));

        if i > 3 {
            assert!(windows.upstream[i as usize - 1].contains(&cg));
            assert!(windows.gene[i as usize - 1].contains(&cg));
            assert!(windows.downstream[i as usize - 1].contains(&cg));
            assert!(windows.upstream[i as usize - 2].contains(&cg));
            assert!(windows.gene[i as usize - 2].contains(&cg));
            assert!(windows.downstream[i as usize - 2].contains(&cg));
        }
    }
}

#[test]
fn test_place_site_relative_acting_like_absolute() {
    let args = Args {
        invert: false,
        absolute: false,
        cutoff: 100,
        genome: String::from("not relevant"),
        methylome: String::from("also not relevant"),
        output_dir: String::from("also not relevant"),
        window_size: 2,
        window_step: 1,
    };
    let all_within_gene = Gene {
        chromosome: 1,
        start: 100,
        end: 200,
        strand: Strand::Sense,
        name: String::new(),
    };
    let all_upstream_gene = Gene {
        chromosome: 1,
        start: 200,
        end: 300,
        strand: Strand::Sense,
        name: String::new(),
    };
    let all_downstream_gene = Gene {
        chromosome: 1,
        start: 0,
        end: 100,
        strand: Strand::Sense,
        name: String::new(),
    };

    let mut windows = Windows::new(100, &args);
    for i in 1..100 {
        let cg = MethylationSite {
            chromosome: 1,
            location: i + 100,
            strand: Strand::Sense,
            original: String::new(),
        };
        cg.place_in_windows(&all_upstream_gene, &mut windows, &args);
        cg.place_in_windows(&all_within_gene, &mut windows, &args);
        cg.place_in_windows(&all_downstream_gene, &mut windows, &args);

        assert!(windows.upstream[i as usize].contains(&cg));
        assert!(windows.gene[i as usize].contains(&cg));
        assert!(windows.downstream[i as usize].contains(&cg));
    }
}

#[test]
fn test_place_site_relative() {
    let args = Args {
        invert: false,
        absolute: false,
        cutoff: 1000,
        genome: String::from("not relevant"),
        methylome: String::from("also not relevant"),
        output_dir: String::from("also not relevant"),
        window_size: 2,
        window_step: 1,
    };
    let all_within_gene = Gene {
        chromosome: 1,
        start: 1000,
        end: 2000,
        strand: Strand::Sense,
        name: String::new(),
    };
    let all_upstream_gene = Gene {
        chromosome: 1,
        start: 2000,
        end: 3000,
        strand: Strand::Sense,
        name: String::new(),
    };
    let all_downstream_gene = Gene {
        chromosome: 1,
        start: 0,
        end: 1000,
        strand: Strand::Sense,
        name: String::new(),
    };

    let mut windows = Windows::new(1000, &args);
    assert!(windows.upstream.len() == 100);
    for i in 1..1000 {
        let cg = MethylationSite {
            chromosome: 1,
            location: i + 1000,
            strand: Strand::Sense,
            original: String::new(),
        };
        cg.place_in_windows(&all_upstream_gene, &mut windows, &args);
        cg.place_in_windows(&all_within_gene, &mut windows, &args);
        cg.place_in_windows(&all_downstream_gene, &mut windows, &args);

        assert!(windows.upstream[(i / 10) as usize].contains(&cg));
        assert!(windows.gene[(i / 10) as usize].contains(&cg));
        assert!(windows.downstream[(i / 10) as usize].contains(&cg));
    }
}

#[test]
fn test_place_site() {
    let cg_a = MethylationSite {
        chromosome: 1,
        location: 80,
        strand: Strand::Sense,
        original: String::new(),
    };
    let cg_b = MethylationSite {
        chromosome: 1,
        location: 100,
        strand: Strand::Sense,
        original: String::new(),
    };
    let cg_c = MethylationSite {
        chromosome: 1,
        location: 123,
        strand: Strand::Sense,
        original: String::new(),
    };
    let cg_d = MethylationSite {
        chromosome: 1,
        location: 200,
        strand: Strand::Sense,
        original: String::new(),
    };
    let cg_e = MethylationSite {
        chromosome: 1,
        location: 201,
        strand: Strand::Sense,
        original: String::new(),
    };
    let cg_f = MethylationSite {
        chromosome: 1,
        location: 512 + 100 + 100,
        strand: Strand::Sense,
        original: String::new(),
    };
    let cg_g = MethylationSite {
        chromosome: 1,
        location: 1024 + 100 + 100,
        strand: Strand::Sense,
        original: String::new(),
    };
    let cg_h = MethylationSite {
        chromosome: 1,
        location: 2048 + 100 + 100,
        strand: Strand::Sense,
        original: String::new(),
    };

    let gene = Gene {
        chromosome: 1,
        start: 100,
        end: 200,
        strand: Strand::Sense,
        name: String::new(),
    };

    let args = Args {
        invert: false,
        absolute: false,
        cutoff: 2048,
        genome: String::from("not relevant"),
        methylome: String::from("also not relevant"),
        output_dir: String::from("also not relevant"),
        window_size: 2,
        window_step: 1,
    };
    let mut windows = Windows::new(1000, &args);

    cg_a.place_in_windows(&gene, &mut windows, &args);
    cg_b.place_in_windows(&gene, &mut windows, &args);
    cg_c.place_in_windows(&gene, &mut windows, &args);
    cg_d.place_in_windows(&gene, &mut windows, &args);
    cg_e.place_in_windows(&gene, &mut windows, &args);
    cg_f.place_in_windows(&gene, &mut windows, &args);
    cg_g.place_in_windows(&gene, &mut windows, &args);
    cg_h.place_in_windows(&gene, &mut windows, &args);

    assert!(windows.upstream[98].contains(&cg_a));
    assert!(windows.upstream[99].contains(&cg_a));
    assert!(windows.gene[0].contains(&cg_b));
    assert!(windows.gene[21].contains(&cg_c));
    assert!(windows.gene[22].contains(&cg_c));
    assert!(windows.gene[23].contains(&cg_c));
    assert!(windows.gene[99].contains(&cg_d));
    assert!(windows.downstream[0].contains(&cg_e));
    assert!(windows.downstream[24].contains(&cg_f));
    assert!(windows.downstream[49].contains(&cg_g));
    assert!(windows.downstream[99].contains(&cg_h));
}

#[test]
fn test_place_site_absolute_2() {
    let cg_a = MethylationSite {
        chromosome: 1,
        location: 80,
        strand: Strand::Sense,
        original: String::new(),
    };
    let cg_b = MethylationSite {
        chromosome: 1,
        location: 100,
        strand: Strand::Sense,
        original: String::new(),
    };
    let cg_c = MethylationSite {
        chromosome: 1,
        location: 123,
        strand: Strand::Sense,
        original: String::new(),
    };
    let cg_d = MethylationSite {
        chromosome: 1,
        location: 200,
        strand: Strand::Sense,
        original: String::new(),
    };
    let cg_e = MethylationSite {
        chromosome: 1,
        location: 201,
        strand: Strand::Sense,
        original: String::new(),
    };
    let cg_f = MethylationSite {
        chromosome: 1,
        location: 220,
        strand: Strand::Sense,
        original: String::new(),
    };

    let gene = Gene {
        chromosome: 1,
        start: 100,
        end: 200,
        strand: Strand::Sense,
        name: String::new(),
    };

    let args = Args {
        invert: false,
        absolute: true,
        cutoff: 2048,
        genome: String::from("not relevant"),
        methylome: String::from("also not relevant"),
        output_dir: String::from("also not relevant"),
        window_size: 2,
        window_step: 1,
    };
    let mut windows = Windows::new(100, &args);

    cg_a.place_in_windows(&gene, &mut windows, &args);
    cg_b.place_in_windows(&gene, &mut windows, &args);
    cg_c.place_in_windows(&gene, &mut windows, &args);
    cg_d.place_in_windows(&gene, &mut windows, &args);
    cg_e.place_in_windows(&gene, &mut windows, &args);
    cg_f.place_in_windows(&gene, &mut windows, &args);
    assert!(windows.upstream[2026].contains(&cg_a));
    assert!(windows.upstream[2027].contains(&cg_a));
    assert!(windows.upstream[2028].contains(&cg_a));
    assert!(windows.gene[0].contains(&cg_b));
    assert!(windows.gene[21].contains(&cg_c));
    assert!(windows.gene[22].contains(&cg_c));
    assert!(windows.gene[23].contains(&cg_c));
    assert!(windows.gene[99].contains(&cg_d));
    assert!(windows.downstream[0].contains(&cg_e));
    assert!(windows.downstream[1].contains(&cg_e));
    assert!(windows.downstream[18].contains(&cg_f));
    assert!(windows.downstream[19].contains(&cg_f));
    assert!(windows.downstream[20].contains(&cg_f));
}

#[test]
fn test_place_site_relative_antisense() {
    let args = Args {
        invert: false,
        absolute: false,
        cutoff: 1000,
        genome: String::from("not relevant"),
        methylome: String::from("also not relevant"),
        output_dir: String::from("also not relevant"),
        window_size: 2,
        window_step: 1,
    };
    let all_within_gene = Gene {
        chromosome: 1,
        start: 1000,
        end: 2000,
        strand: Strand::Antisense,
        name: String::new(),
    };
    let all_upstream_gene = Gene {
        chromosome: 1,
        start: 2000,
        end: 3000,
        strand: Strand::Antisense,
        name: String::new(),
    };
    let all_downstream_gene = Gene {
        chromosome: 1,
        start: 0,
        end: 1000,
        strand: Strand::Antisense,
        name: String::new(),
    };

    let mut windows = Windows::new(1000, &args);
    assert!(windows.upstream.len() == 100);
    for i in 1..1000 {
        let cg = MethylationSite {
            chromosome: 1,
            location: i + 1000,
            strand: Strand::Antisense,
            original: String::new(),
        };
        cg.place_in_windows(&all_upstream_gene, &mut windows, &args);
        cg.place_in_windows(&all_within_gene, &mut windows, &args);
        cg.place_in_windows(&all_downstream_gene, &mut windows, &args);

        assert!(windows.upstream[((999 - i) / 10) as usize].contains(&cg));
        assert!(windows.gene[((999 - i) / 10) as usize].contains(&cg));
        assert!(windows.downstream[((999 - i) / 10) as usize].contains(&cg));
    }
}

#[test]
fn test_place_site_absolute_invert() {
    let args = Args {
        invert: true,
        absolute: true,
        cutoff: 1000,
        genome: String::from("not relevant"),
        methylome: String::from("also not relevant"),
        output_dir: String::from("also not relevant"),
        window_size: 2,
        window_step: 1,
    };
    let all_within_gene = Gene {
        chromosome: 1,
        start: 1000,
        end: 2000,
        strand: Strand::Sense,
        name: String::new(),
    };
    let all_upstream_gene = Gene {
        chromosome: 1,
        start: 2000,
        end: 3000,
        strand: Strand::Sense,
        name: String::new(),
    };
    let all_downstream_gene = Gene {
        chromosome: 1,
        start: 0,
        end: 1000,
        strand: Strand::Sense,
        name: String::new(),
    };

    let mut windows = Windows::new(1000, &args);
    assert!(windows.upstream.len() == 1000);
    for i in 1..1000 {
        let cg = MethylationSite {
            chromosome: 1,
            location: i + 1000,
            strand: Strand::Sense,
            original: String::new(),
        };
        cg.place_in_windows(&all_upstream_gene, &mut windows, &args);
        cg.place_in_windows(&all_within_gene, &mut windows, &args);
        cg.place_in_windows(&all_downstream_gene, &mut windows, &args);

        assert!(windows.upstream[i as usize].contains(&cg));
        assert!(windows.gene[i as usize].contains(&cg));
        assert!(windows.downstream[i as usize].contains(&cg));
    }
}
