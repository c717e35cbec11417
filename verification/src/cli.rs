//! The configuration a command line resolves to. Parsing the command line
//! itself is the surrounding program's job; the library holds the settled
//! values and their defaults.
use vstd::prelude::*;

verus! {

/// Everything a run is configured with: inputs, filter lists, zone name,
/// transcript root, transcriber choice, log level, output path.
#[derive(Debug)]
pub struct CliArgs {
    pub input_files: Vec<String>,
    pub freqs: Vec<String>,
    pub rtypes: Vec<String>,
    pub rids: Vec<String>,
    pub tgs: Vec<String>,
    pub nacs: Vec<String>,
    pub tz: Option<String>,
    pub record_dir: Option<String>,
    pub transcriber: String,
    pub log_level: String,
    pub out: String,
}

impl Default for CliArgs {
    /// No inputs, no filters, no zone, no transcript root; no transcriber,
    /// essential-only logging, and a default output path.
    fn default() -> (r: Self)
        ensures
            r.input_files@.len() == 0,
            r.freqs@.len() == 0,
            r.rtypes@.len() == 0,
            r.rids@.len() == 0,
            r.tgs@.len() == 0,
            r.nacs@.len() == 0,
            r.tz is None,
            r.record_dir is None,
            r.transcriber@ == "none"@,
            r.log_level@ == "essential"@,
            r.out@ == "out.csv"@,
    {
        CliArgs {
            input_files: Vec::new(),
            freqs: Vec::new(),
            rtypes: Vec::new(),
            rids: Vec::new(),
            tgs: Vec::new(),
            nacs: Vec::new(),
            tz: None,
            record_dir: None,
            transcriber: "none".to_owned(),
            log_level: "essential".to_owned(),
            out: "out.csv".to_owned(),
        }
    }
}

} // verus!
