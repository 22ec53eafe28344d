//! Assembling one analysis: parse the tool outputs, aggregate, run the
//! findings, fill the symbol store, and stamp the cache metadata. All
//! file reading, process running and cache I/O stays with the caller;
//! everything computed from those inputs is pinned here.
use vstd::prelude::*;

use crate::findings::{compute_findings, findings_spec};
use crate::mapfile::{
    apply_region_totals, build_tree_spec, flash_used_spec, map_agg_of, parse_map_contributions,
    ram_used_spec, regions_spec,
};
use crate::model::{
    AnalysisMeta, AnalysisResult, AnalysisSummary, AppState, CacheMeta, ToolchainPaths,
};
use crate::rank::{top_spec, top_syms_spec, top_symbols};
use crate::sections::{compute_section_totals, parse_objdump_sections, parse_sections_spec};
use crate::sections::{section_sum, totals_wf};
use crate::store::replace_symbols;
use crate::symbols::{parse_nm_symbols, parse_symbols_spec};

verus! {

/// Build the full analysis result from the tools' captured outputs.
/// The symbol store receives every parsed symbol; the summary keeps
/// the 50 largest. The cache metadata records a miss under the given
/// key: this is the fresh-computation path. Every field of the result
/// is pinned as a function of the arguments alone, so unchanged inputs
/// reproduce the summary exactly.
pub fn analyze_outputs(
    elf_path: &str,
    map_path: Option<&str>,
    toolchain: ToolchainPaths,
    cache_key: &str,
    objdump_out: &str,
    nm_out: &str,
    map_text: Option<&str>,
    strings_count: Option<u64>,
    state: &mut AppState,
) -> (r: AnalysisResult)
    ensures
        ({
            let secs = parse_sections_spec(objdump_out@);
            let syms = parse_symbols_spec(nm_out@);
            &&& r.sections.deep_view() == secs
            &&& r.summary.top_symbols.deep_view() == top_syms_spec(syms, 50)
            &&& r.summary.findings.deep_view() == findings_spec(syms, secs, strings_count)
            &&& r.summary.sections_totals.text_bytes == section_sum(secs, ".text"@)
            &&& r.summary.sections_totals.rodata_bytes == section_sum(secs, ".rodata"@)
            &&& r.summary.sections_totals.data_bytes == section_sum(secs, ".data"@)
            &&& r.summary.sections_totals.bss_bytes == section_sum(secs, ".bss"@)
            &&& totals_wf(r.summary.sections_totals)
            &&& match map_text {
                None => {
                    &&& r.summary.top_objects.deep_view().len() == 0
                    &&& r.summary.top_libraries.deep_view().len() == 0
                    &&& r.summary.top_sections.deep_view().len() == 0
                    &&& r.summary.map_tree.deep_view().len() == 0
                    &&& r.summary.memory_regions.deep_view().len() == 0
                    &&& r.summary.sections_totals.flash_region_bytes is None
                    &&& r.summary.sections_totals.ram_region_bytes is None
                },
                Some(t) => {
                    let agg = map_agg_of(crate::text::lines_spec(t@));
                    let regions = regions_spec(t@);
                    &&& r.summary.top_objects.deep_view() == top_spec(agg.objects, 20)
                    &&& r.summary.top_libraries.deep_view() == top_spec(agg.libraries, 12)
                    &&& r.summary.top_sections.deep_view() == top_spec(agg.sections, 8)
                    &&& r.summary.map_tree.deep_view() == build_tree_spec(agg.buckets, 20, 40)
                    &&& r.summary.memory_regions.deep_view() == regions
                    &&& regions.len() == 0 ==> r.summary.sections_totals.flash_region_bytes
                        is None && r.summary.sections_totals.ram_region_bytes is None
                    &&& regions.len() > 0 ==> r.summary.sections_totals.flash_region_bytes
                        == flash_used_spec(regions) && r.summary.sections_totals.ram_region_bytes
                        == ram_used_spec(regions)
                },
            }
            &&& r.meta.elf_path@ == elf_path@
            &&& match (r.meta.map_path, map_path) {
                (None, None) => true,
                (Some(p), Some(q)) => p@ == q@,
                _ => false,
            }
            &&& r.meta.toolchain == toolchain
            &&& r.meta.cache.hit == false
            &&& r.meta.cache.key@ == cache_key@
            &&& final (state).symbols.deep_view() == syms
        }),
{
    let sections = parse_objdump_sections(objdump_out);
    let all_symbols = parse_nm_symbols(nm_out);
    let top_symbols_list = top_symbols(&all_symbols, 50);
    let totals0 = compute_section_totals(&sections);
    let (top_objects, top_libraries, top_sections, map_tree, memory_regions) = match map_text {
        Some(t) => {
            let mc = parse_map_contributions(t);
            (mc.top_objects, mc.top_libraries, mc.top_sections, mc.map_tree, mc.memory_regions)
        },
        None => (Vec::new(), Vec::new(), Vec::new(), Vec::new(), Vec::new()),
    };
    let totals = apply_region_totals(totals0, &memory_regions);
    let findings = compute_findings(&all_symbols, &sections, strings_count);
    replace_symbols(state, all_symbols);
    AnalysisResult {
        meta: AnalysisMeta {
            elf_path: elf_path.to_owned(),
            map_path: match map_path {
                Some(p) => Some(p.to_owned()),
                None => None,
            },
            toolchain,
            cache: CacheMeta { hit: false, key: cache_key.to_owned() },
        },
        summary: AnalysisSummary {
            sections_totals: totals,
            top_symbols: top_symbols_list,
            top_objects,
            top_libraries,
            top_sections,
            map_tree,
            memory_regions,
            findings,
        },
        sections,
    }
}

/// Re-stamp a cached result as a hit under the probed key. The summary
/// and section list come through unchanged: serving from cache never
/// alters what was computed.
pub fn apply_cache_hit(result: AnalysisResult, key: &str) -> (r: AnalysisResult)
    ensures
        r.summary == result.summary,
        r.sections == result.sections,
        r.meta.elf_path == result.meta.elf_path,
        r.meta.map_path == result.meta.map_path,
        r.meta.toolchain == result.meta.toolchain,
        r.meta.cache.hit == true,
        r.meta.cache.key@ == key@,
{
    AnalysisResult {
        meta: AnalysisMeta {
            elf_path: result.meta.elf_path,
            map_path: result.meta.map_path,
            toolchain: result.meta.toolchain,
            cache: CacheMeta { hit: true, key: key.to_owned() },
        },
        summary: result.summary,
        sections: result.sections,
    }
}

} // verus!
