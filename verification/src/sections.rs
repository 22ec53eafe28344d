//! Parsing of the section-header tool's line-oriented output, and the
//! section totals the summary reports.
use vstd::prelude::*;

use crate::model::{SectionInfo, SectionModel, SectionTotals};
use crate::numbers::parse_hex_spec;
use crate::sat_add;
use crate::numbers::parse_hex_u64;
use crate::text::{fields_spec, is_ascii_digit, trim_spec};
use crate::text::{is_digit_char, split_fields, str_eq, trim_str};

verus! {

broadcast use vstd::string::group_string_axioms;

/// The record a single output line denotes, if any: the line must start
/// (after trimming) with the tool's decimal row index and split into at
/// least four whitespace-separated fields; the third field is the
/// hexadecimal size. Anything else is skipped as a header or footer.
pub open spec fn section_of_line(line: Seq<char>) -> Option<SectionModel> {
    let t = trim_spec(line);
    if t.len() == 0 || !is_ascii_digit(t[0]) {
        None
    } else {
        let fs = fields_spec(t);
        if fs.len() < 4 {
            None
        } else {
            match parse_hex_spec(fs[2]) {
                None => None,
                Some(size) => Some(
                    SectionModel {
                        name: fs[1],
                        size,
                        vma: Some(fs[3]),
                        lma: if fs.len() >= 5 {
                            Some(fs[4])
                        } else {
                            None
                        },
                    },
                ),
            }
        }
    }
}

pub open spec fn opt_record<T>(o: Option<T>) -> Seq<T> {
    match o {
        None => Seq::empty(),
        Some(m) => seq![m],
    }
}

pub open spec fn sections_of_lines(ls: Seq<Seq<char>>) -> Seq<SectionModel>
    decreases ls.len(),
{
    if ls.len() == 0 {
        Seq::empty()
    } else {
        sections_of_lines(ls.drop_last()) + opt_record(section_of_line(ls.last()))
    }
}

/// The section list the whole tool output denotes.
pub open spec fn parse_sections_spec(out: Seq<char>) -> Seq<SectionModel> {
    sections_of_lines(crate::text::lines_spec(out))
}

fn parse_section_line(line: &str) -> (r: Option<SectionInfo>)
    ensures
        match r {
            None => section_of_line(line@) is None,
            Some(s) => section_of_line(line@) == Some(s@),
        },
{
    let t = trim_str(line);
    let n = t.unicode_len();
    if n == 0 {
        return None;
    }
    if !is_digit_char(t.get_char(0)) {
        return None;
    }
    let fs = split_fields(t);
    if fs.len() < 4 {
        return None;
    }
    proof {
        assert(fs.deep_view()[2] == fs@[2]@);
        assert(fs.deep_view()[1] == fs@[1]@);
        assert(fs.deep_view()[3] == fs@[3]@);
    }
    let size = match parse_hex_u64(fs[2].as_str()) {
        None => {
            return None;
        },
        Some(v) => v,
    };
    let lma = if fs.len() >= 5 {
        proof {
            assert(fs.deep_view()[4] == fs@[4]@);
        }
        Some(fs[4].as_str().to_owned())
    } else {
        None
    };
    Some(
        SectionInfo {
            name: fs[1].as_str().to_owned(),
            size,
            vma: Some(fs[3].as_str().to_owned()),
            lma,
        },
    )
}

/// Parse the section-header tool's output; one record per qualifying
/// line, in output order, all other lines skipped.
pub fn parse_objdump_sections(output: &str) -> (r: Vec<SectionInfo>)
    ensures
        r.deep_view() == parse_sections_spec(output@),
{
    let lines = crate::text::split_lines(output);
    let ghost lv = lines.deep_view();
    let mut out: Vec<SectionInfo> = Vec::new();
    let mut i: usize = 0;
    while i < lines.len()
        invariant
            0 <= i <= lines@.len(),
            lv == lines.deep_view(),
            lv.len() == lines@.len(),
            lv == crate::text::lines_spec(output@),
            out.deep_view() == sections_of_lines(lv.take(i as int)),
        decreases lines@.len() - i,
    {
        let ghost prev = out.deep_view();
        proof {
            assert(lv.take(i + 1).drop_last() =~= lv.take(i as int));
            assert(lv.take(i + 1).last() == lv[i as int]);
            assert(lines@[i as int]@ == lv[i as int]);
        }
        match parse_section_line(&lines[i]) {
            None => {
                proof {
                    assert(out.deep_view() =~= prev + opt_record(section_of_line(lv[i as int])));
                }
            },
            Some(rec) => {
                out.push(rec);
                proof {
                    assert(out.deep_view() =~= prev + opt_record(section_of_line(lv[i as int])));
                }
            },
        }
        i = i + 1;
    }
    proof {
        assert(lv.take(lv.len() as int) =~= lv);
    }
    out
}

/// Saturating sum of the sizes of the sections named exactly `name`.
pub open spec fn section_sum(ss: Seq<SectionModel>, name: Seq<char>) -> u64
    decreases ss.len(),
{
    if ss.len() == 0 {
        0u64
    } else {
        let rest = section_sum(ss.drop_last(), name);
        if ss.last().name == name {
            sat_add(rest, ss.last().size)
        } else {
            rest
        }
    }
}

/// The linear relations the aggregate totals always satisfy (with
/// saturating sums standing in for unbounded ones).
pub open spec fn totals_wf(t: SectionTotals) -> bool {
    &&& t.flash_bytes == sat_add(sat_add(t.text_bytes, t.rodata_bytes), t.data_bytes)
    &&& t.ram_bytes == sat_add(t.data_bytes, t.bss_bytes)
}

/// Flash is text+rodata+data and RAM is data+bss, exactly, whenever the
/// mathematical sums fit in a `u64`.
pub proof fn lemma_totals_exact(t: SectionTotals)
    requires
        totals_wf(t),
        t.text_bytes + t.rodata_bytes + t.data_bytes <= u64::MAX,
        t.data_bytes + t.bss_bytes <= u64::MAX,
    ensures
        t.flash_bytes == t.text_bytes + t.rodata_bytes + t.data_bytes,
        t.ram_bytes == t.data_bytes + t.bss_bytes,
{
}

/// Sum the sizes of the four classic sections, by exact name, and
/// derive the flash and RAM totals from them.
pub fn compute_section_totals(sections: &Vec<SectionInfo>) -> (r: SectionTotals)
    ensures
        r.text_bytes == section_sum(sections.deep_view(), ".text"@),
        r.rodata_bytes == section_sum(sections.deep_view(), ".rodata"@),
        r.data_bytes == section_sum(sections.deep_view(), ".data"@),
        r.bss_bytes == section_sum(sections.deep_view(), ".bss"@),
        totals_wf(r),
        r.flash_region_bytes is None,
        r.ram_region_bytes is None,
{
    let ghost dv = sections.deep_view();
    let mut text: u64 = 0;
    let mut rodata: u64 = 0;
    let mut data: u64 = 0;
    let mut bss: u64 = 0;
    let mut i: usize = 0;
    while i < sections.len()
        invariant
            0 <= i <= sections@.len(),
            dv == sections.deep_view(),
            dv.len() == sections@.len(),
            text == section_sum(dv.take(i as int), ".text"@),
            rodata == section_sum(dv.take(i as int), ".rodata"@),
            data == section_sum(dv.take(i as int), ".data"@),
            bss == section_sum(dv.take(i as int), ".bss"@),
        decreases sections@.len() - i,
    {
        proof {
            assert(dv.take(i + 1).drop_last() =~= dv.take(i as int));
            assert(dv.take(i + 1).last() == dv[i as int]);
            assert(sections@[i as int]@ == dv[i as int]);
            reveal_strlit(".text");
            reveal_strlit(".rodata");
            reveal_strlit(".data");
            reveal_strlit(".bss");
            assert(".text"@.len() == 5);
            assert(".rodata"@.len() == 7);
            assert(".data"@.len() == 5);
            assert(".bss"@.len() == 4);
            assert(".text"@[1] == 't');
            assert(".data"@[1] == 'd');
            assert(".text"@ != ".rodata"@);
            assert(".text"@ != ".data"@);
            assert(".text"@ != ".bss"@);
            assert(".rodata"@ != ".data"@);
            assert(".rodata"@ != ".bss"@);
            assert(".data"@ != ".bss"@);
        }
        let s = &sections[i];
        if str_eq(s.name.as_str(), ".text") {
            text = text.saturating_add(s.size);
        } else if str_eq(s.name.as_str(), ".rodata") {
            rodata = rodata.saturating_add(s.size);
        } else if str_eq(s.name.as_str(), ".data") {
            data = data.saturating_add(s.size);
        } else if str_eq(s.name.as_str(), ".bss") {
            bss = bss.saturating_add(s.size);
        }
        i = i + 1;
    }
    proof {
        assert(dv.take(dv.len() as int) =~= dv);
    }
    SectionTotals {
        flash_bytes: text.saturating_add(rodata).saturating_add(data),
        ram_bytes: data.saturating_add(bss),
        text_bytes: text,
        rodata_bytes: rodata,
        data_bytes: data,
        bss_bytes: bss,
        flash_region_bytes: None,
        ram_region_bytes: None,
    }
}

} // verus!
