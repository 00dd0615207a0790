//! The machine the assistant runs on and whether it can run local models.
use vstd::prelude::*;

verus! {

/// What the hardware audit found.
pub struct SystemSpecs {
    pub os_name: String,
    pub os_version: String,
    pub total_memory_gb: u64,
    pub available_memory_gb: u64,
    pub cpu_brand: String,
    pub cpu_cores: usize,
    pub cpu_threads: usize,
}

/// Whether a machine with `total_memory_gb` can run local models at all.
pub open spec fn compatible(total_memory_gb: nat) -> bool {
    total_memory_gb >= 2
}

/// The warnings for a machine, in order: about memory (below 4 GB, or below
/// 8 GB), then about a single core.
pub open spec fn compatibility_warnings(total_memory_gb: nat, cpu_cores: nat) -> Seq<Seq<char>> {
    (if total_memory_gb < 4 {
        seq!["Limited RAM detected. Aide will suggest extremely small models."@]
    } else if total_memory_gb < 8 {
        seq!["8GB+ RAM is recommended for better quality models."@]
    } else {
        Seq::empty()
    }) + (if cpu_cores < 2 {
        seq!["Single-core CPU detected. Performance may be very slow."@]
    } else {
        Seq::empty()
    })
}

impl SystemSpecs {
    /// Whether the machine meets the minimum requirements for local models,
    /// and the warnings about it.
    pub fn check_compatibility(&self) -> (r: (bool, Vec<String>))
        ensures
            r.0 == compatible(self.total_memory_gb as nat),
            r.1@.map_values(|s: String| s@) == compatibility_warnings(
                self.total_memory_gb as nat,
                self.cpu_cores as nat,
            ),
    {
        let mut warnings: Vec<String> = Vec::new();
        let mut is_compatible = true;
        if self.total_memory_gb < 4 {
            warnings.push("Limited RAM detected. Aide will suggest extremely small models.".to_owned());
        } else if self.total_memory_gb < 8 {
            warnings.push("8GB+ RAM is recommended for better quality models.".to_owned());
        }
        let ghost w1 = warnings@.map_values(|s: String| s@);
        if self.cpu_cores < 2 {
            warnings.push("Single-core CPU detected. Performance may be very slow.".to_owned());
        }
        if self.total_memory_gb < 2 {
            is_compatible = false;
        }
        assert(warnings@.map_values(|s: String| s@) =~= compatibility_warnings(
            self.total_memory_gb as nat,
            self.cpu_cores as nat,
        ));
        (is_compatible, warnings)
    }
}

} // verus!
