//! The data model: parsed records, aggregates, findings, and the query
//! result types. Each record type that appears inside contracts gets a
//! ghost model over `Seq<char>` views so that specifications can build
//! and compare values mathematically.
use vstd::prelude::*;

verus! {

/// A named region of the binary as the section-header tool reports it.
#[derive(Debug, Clone)]
pub struct SectionInfo {
    pub name: String,
    pub size: u64,
    pub vma: Option<String>,
    pub lma: Option<String>,
}

pub ghost struct SectionModel {
    pub name: Seq<char>,
    pub size: u64,
    pub vma: Option<Seq<char>>,
    pub lma: Option<Seq<char>>,
}

impl View for SectionInfo {
    type V = SectionModel;

    open spec fn view(&self) -> SectionModel {
        SectionModel {
            name: self.name@,
            size: self.size,
            vma: match self.vma {
                Some(ref v) => Some(v@),
                None => None,
            },
            lma: match self.lma {
                Some(ref v) => Some(v@),
                None => None,
            },
        }
    }
}

impl DeepView for SectionInfo {
    type V = SectionModel;

    open spec fn deep_view(&self) -> SectionModel {
        self@
    }
}

/// A named, sized entity from the symbol-table dump.
#[derive(Debug, Clone)]
pub struct SymbolInfo {
    pub name: String,
    pub size: u64,
    pub addr: Option<String>,
    pub kind: String,
    pub section_guess: String,
}

pub ghost struct SymbolModel {
    pub name: Seq<char>,
    pub size: u64,
    pub addr: Option<Seq<char>>,
    pub kind: Seq<char>,
    pub section_guess: Seq<char>,
}

impl View for SymbolInfo {
    type V = SymbolModel;

    open spec fn view(&self) -> SymbolModel {
        SymbolModel {
            name: self.name@,
            size: self.size,
            addr: match self.addr {
                Some(ref v) => Some(v@),
                None => None,
            },
            kind: self.kind@,
            section_guess: self.section_guess@,
        }
    }
}

impl DeepView for SymbolInfo {
    type V = SymbolModel;

    open spec fn deep_view(&self) -> SymbolModel {
        self@
    }
}

/// An aggregated size attributed to an object file, library, or section.
#[derive(Debug, Clone)]
pub struct ObjectContribution {
    pub name: String,
    pub size: u64,
}

pub ghost struct ContribModel {
    pub name: Seq<char>,
    pub size: u64,
}

impl View for ObjectContribution {
    type V = ContribModel;

    open spec fn view(&self) -> ContribModel {
        ContribModel { name: self.name@, size: self.size }
    }
}

impl DeepView for ObjectContribution {
    type V = ContribModel;

    open spec fn deep_view(&self) -> ContribModel {
        self@
    }
}

/// A two-level size tree: a library (or the synthetic "Objects" bucket)
/// above, its object files below.
#[derive(Debug)]
pub struct TreeNode {
    pub name: String,
    pub size: u64,
    pub children: Vec<TreeNode>,
}

/// Model of one tree level: the children are modelled by name and size
/// alone, as the trees this library builds are exactly two levels deep.
pub ghost struct TreeModel {
    pub name: Seq<char>,
    pub size: u64,
    pub children: Seq<ContribModel>,
}

impl View for TreeNode {
    type V = TreeModel;

    open spec fn view(&self) -> TreeModel {
        TreeModel {
            name: self.name@,
            size: self.size,
            children: Seq::new(
                self.children@.len(),
                |i: int| ContribModel {
                    name: self.children@[i].name@,
                    size: self.children@[i].size,
                },
            ),
        }
    }
}

impl DeepView for TreeNode {
    type V = TreeModel;

    open spec fn deep_view(&self) -> TreeModel {
        self@
    }
}

/// One row of a linker map's memory-configuration table.
#[derive(Debug, Clone)]
pub struct MemoryRegion {
    pub name: String,
    pub origin: String,
    pub length: u64,
    pub used: Option<u64>,
}

pub ghost struct RegionModel {
    pub name: Seq<char>,
    pub origin: Seq<char>,
    pub length: u64,
    pub used: Option<u64>,
}

impl View for MemoryRegion {
    type V = RegionModel;

    open spec fn view(&self) -> RegionModel {
        RegionModel {
            name: self.name@,
            origin: self.origin@,
            length: self.length,
            used: self.used,
        }
    }
}

impl DeepView for MemoryRegion {
    type V = RegionModel;

    open spec fn deep_view(&self) -> RegionModel {
        self@
    }
}

/// A diagnostic emitted by the findings engine.
#[derive(Debug, Clone)]
pub struct Finding {
    pub id: String,
    pub severity: String,
    pub value: u64,
    pub items: Vec<String>,
}

pub ghost struct FindingModel {
    pub id: Seq<char>,
    pub severity: Seq<char>,
    pub value: u64,
    pub items: Seq<Seq<char>>,
}

impl View for Finding {
    type V = FindingModel;

    open spec fn view(&self) -> FindingModel {
        FindingModel {
            id: self.id@,
            severity: self.severity@,
            value: self.value,
            items: self.items.deep_view(),
        }
    }
}

impl DeepView for Finding {
    type V = FindingModel;

    open spec fn deep_view(&self) -> FindingModel {
        self@
    }
}

/// Aggregate section totals; the region fields are set only when a
/// linker map reported per-region usage.
#[derive(Debug, Clone, Copy)]
pub struct SectionTotals {
    pub flash_bytes: u64,
    pub ram_bytes: u64,
    pub text_bytes: u64,
    pub rodata_bytes: u64,
    pub data_bytes: u64,
    pub bss_bytes: u64,
    pub flash_region_bytes: Option<u64>,
    pub ram_region_bytes: Option<u64>,
}

/// Whether the last analysis was served from cache, and under which key.
#[derive(Debug, Clone)]
pub struct CacheMeta {
    pub hit: bool,
    pub key: String,
}

/// The three resolved tool paths the analysis shells out to.
#[derive(Debug, Clone)]
pub struct ToolchainPaths {
    pub nm_path: String,
    pub objdump_path: String,
    pub strings_path: String,
}

/// An explicit toolchain configuration, every part optional.
#[derive(Debug, Clone)]
pub struct ToolchainConfig {
    pub auto_detect: bool,
    pub toolchain_root: Option<String>,
    pub nm_path: Option<String>,
    pub objdump_path: Option<String>,
    pub strings_path: Option<String>,
}

/// A detected toolchain, tagged with where it was found.
#[derive(Debug, Clone)]
pub struct ToolchainCandidate {
    pub source: String,
    pub paths: ToolchainPaths,
}

/// The request for one analysis run.
#[derive(Debug, Clone)]
pub struct AnalyzeParams {
    pub elf_path: String,
    pub map_path: Option<String>,
    pub toolchain: Option<ToolchainConfig>,
}

#[derive(Debug, Clone)]
pub struct AnalysisMeta {
    pub elf_path: String,
    pub map_path: Option<String>,
    pub toolchain: ToolchainPaths,
    pub cache: CacheMeta,
}

#[derive(Debug)]
pub struct AnalysisSummary {
    pub sections_totals: SectionTotals,
    pub top_symbols: Vec<SymbolInfo>,
    pub top_objects: Vec<ObjectContribution>,
    pub top_libraries: Vec<ObjectContribution>,
    pub top_sections: Vec<ObjectContribution>,
    pub map_tree: Vec<TreeNode>,
    pub memory_regions: Vec<MemoryRegion>,
    pub findings: Vec<Finding>,
}

/// The full output envelope of one analysis: what the cache persists.
#[derive(Debug)]
pub struct AnalysisResult {
    pub meta: AnalysisMeta,
    pub summary: AnalysisSummary,
    pub sections: Vec<SectionInfo>,
}

/// A paged symbol query against the symbol store.
#[derive(Debug, Clone)]
pub struct SymbolQuery {
    pub query: Option<String>,
    pub page: usize,
    pub page_size: usize,
    pub sort: Option<String>,
    pub order: Option<String>,
}

#[derive(Debug, Clone)]
pub struct PagedSymbols {
    pub total: usize,
    pub items: Vec<SymbolInfo>,
}

#[derive(Debug, Clone)]
pub struct PcLookupSymbol {
    pub name: String,
    pub addr: String,
    pub size: u64,
    pub kind: String,
    pub section_guess: String,
    pub offset: u64,
}

#[derive(Debug, Clone)]
pub struct PcLookupResult {
    pub address: String,
    pub symbol: Option<PcLookupSymbol>,
}

/// The in-memory symbol store: all symbols of the latest analysis,
/// replaced wholesale by each new run. The caller owns any locking.
#[derive(Debug, Default)]
pub struct AppState {
    pub symbols: Vec<SymbolInfo>,
}

/// Copy a symbol record; the copy has the same model.
pub fn copy_symbol(s: &SymbolInfo) -> (r: SymbolInfo)
    ensures
        r@ == s@,
{
    SymbolInfo {
        name: s.name.as_str().to_owned(),
        size: s.size,
        addr: match &s.addr {
            Some(a) => Some(a.as_str().to_owned()),
            None => None,
        },
        kind: s.kind.as_str().to_owned(),
        section_guess: s.section_guess.as_str().to_owned(),
    }
}

} // verus!
