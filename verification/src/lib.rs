//! Assigns genomic methylation measurements (CG sites) to positional bins
//! relative to annotated genes.
//!
//! The crate builds a per-chromosome, per-strand gene index, parses methylome
//! record lines into typed sites, classifies each site into the upstream,
//! gene-body or downstream region of its nearest gene, and accumulates the
//! sites into fixed windows whose contents can be inverted, summarised and
//! serialised by the surrounding program.

pub mod arguments;
pub mod genes;
pub mod methylation_site;
pub mod text;
pub mod windows;
