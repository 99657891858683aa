//! The two kinds of header: the name of their file and the shape of their
//! definitions.

use vstd::prelude::*;

verus! {

/// The two kinds of header that are read.
#[derive(Clone, Copy, Debug, PartialEq, Eq, Structural)]
pub enum HeaderKind {
    /// The header that numbers the requests of the DMA multiplexer.
    Dmamux,
    /// The header that numbers the interrupts.
    Interrupts,
}

impl HeaderKind {
    /// The name of the header file of this kind.
    pub open spec fn file_name(self) -> Seq<char> {
        match self {
            HeaderKind::Dmamux => "hpm_dmamux_src.h"@,
            HeaderKind::Interrupts => "hpm_soc_irq.h"@,
        }
    }

    /// The name of the header file of this kind.
    pub fn file_name_text(self) -> (text: &'static str)
        ensures
            text@ == self.file_name(),
    {
        match self {
            HeaderKind::Dmamux => "hpm_dmamux_src.h",
            HeaderKind::Interrupts => "hpm_soc_irq.h",
        }
    }

    /// The regular expression that a definition in a header of this kind
    /// matches.
    pub open spec fn pattern(self) -> Seq<char> {
        match self {
            HeaderKind::Dmamux => r"#define\s+HPM_DMA_SRC_(\w+)\s+\((0x[0-9A-Fa-f]+)UL\)"@,
            HeaderKind::Interrupts => r"#define\s+IRQn_(\w+)\s+(\d+)\s+/\*.*\*/"@,
        }
    }

    /// The regular expression that a definition in a header of this kind
    /// matches.
    pub fn pattern_text(self) -> (text: &'static str)
        ensures
            text@ == self.pattern(),
    {
        match self {
            HeaderKind::Dmamux => r"#define\s+HPM_DMA_SRC_(\w+)\s+\((0x[0-9A-Fa-f]+)UL\)",
            HeaderKind::Interrupts => r"#define\s+IRQn_(\w+)\s+(\d+)\s+/\*.*\*/",
        }
    }
}

} // verus!
