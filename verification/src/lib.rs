//! The verified core of a Monte Carlo pricer for European options: reading the
//! command line, dividing the simulated paths among worker threads, and counting
//! samples into histogram bins for the charts.
use vstd::prelude::*;

pub mod chart;
pub mod cli;
pub mod histogram;
pub mod option_kind;
pub mod partition;
pub mod text;
pub mod cli_laws;
