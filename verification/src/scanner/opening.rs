//! What opening a file runs: the laws of the auto-execution analysis, from the
//! bytes and the name of a file to what is reported of it.
use crate::bytes;
use crate::scanner::archive;
use crate::scanner::archive::EntryModel;
use crate::scanner::autoexec;
use crate::scanner::autoexec::{
    LinkModel, DOCUMENT_ICONS, EVASION_MARKERS, EXECUTING_FORMATS, LINK_CLSID, LOLBINS,
    MACRO_ENABLED_OOXML, MACRO_FREE_OOXML, OLE_HEADER, SCRIPT_SCHEMES,
};
use crate::scanner::finding;
use crate::scanner::finding::{FindingModel, Severity};
use crate::sequences;
use crate::text;
use vstd::prelude::*;

verus! {

// ---------------------------------------------------------------------------
// From a part to the whole
// ---------------------------------------------------------------------------

/// What one of the six analyses reports, all of them together do.
proof fn lemma_part_is_reported(
    data: Seq<u8>,
    filename: Seq<char>,
    part: Seq<FindingModel>,
    severity: Severity,
    risk: int,
)
    requires
        finding::reports(part, severity, risk),
        ({
            let ext = text::tail_extension(filename);
            ||| part == autoexec::format_findings(ext)
            ||| part == autoexec::embedded_link_findings(data)
            ||| part == autoexec::document_findings(data, ext)
            ||| part == autoexec::autorun_findings(data, filename)
            ||| part == autoexec::named_url_findings(data, ext)
            ||| part == autoexec::container_findings(data)
        }),
    ensures
        finding::reports(autoexec::execution_findings(data, filename), severity, risk),
        finding::worst_risk(autoexec::execution_findings(data, filename)) >= risk,
{
    let ext = text::tail_extension(filename);
    lemma_six(
        autoexec::format_findings(ext),
        autoexec::embedded_link_findings(data),
        autoexec::document_findings(data, ext),
        autoexec::autorun_findings(data, filename),
        autoexec::named_url_findings(data, ext),
        autoexec::container_findings(data),
        part,
        severity,
        risk,
    );
    finding::law_what_is_reported_counts(
        autoexec::execution_findings(data, filename),
        severity,
        risk,
    );
}

/// What one of six lists reports, all of them together do.
proof fn lemma_six(
    a: Seq<FindingModel>,
    b: Seq<FindingModel>,
    c: Seq<FindingModel>,
    d: Seq<FindingModel>,
    e: Seq<FindingModel>,
    f: Seq<FindingModel>,
    part: Seq<FindingModel>,
    severity: Severity,
    risk: int,
)
    requires
        finding::reports(part, severity, risk),
        part == a || part == b || part == c || part == d || part == e || part == f,
    ensures
        finding::reports((a + b + c) + (d + e + f), severity, risk),
{
    let all = (a + b + c) + (d + e + f);
    let none = Seq::<FindingModel>::empty();
    if part == a {
        finding::lemma_reported_within(none, a, b + c + d + e + f, severity, risk);
        assert(none + a + (b + c + d + e + f) =~= all);
    } else if part == b {
        finding::lemma_reported_within(a, b, c + d + e + f, severity, risk);
        assert(a + b + (c + d + e + f) =~= all);
    } else if part == c {
        finding::lemma_reported_within(a + b, c, d + e + f, severity, risk);
        assert(a + b + c + (d + e + f) =~= all);
    } else if part == d {
        finding::lemma_reported_within(a + b + c, d, e + f, severity, risk);
        assert(a + b + c + d + (e + f) =~= all);
    } else if part == e {
        finding::lemma_reported_within(a + b + c + d, e, f, severity, risk);
        assert(a + b + c + d + e + f =~= all);
    } else {
        finding::lemma_reported_within(a + b + c + d + e, f, none, severity, risk);
        assert(a + b + c + d + e + f + none =~= all);
    }
}

/// An ordinary file gives nothing to report and runs nothing: one that is no
/// shortcut, whose extension runs nothing, that is no instruction for a drive,
/// and that holds neither macros nor such an instruction, whether it is an
/// archive, a package, an old document or none of them.
pub proof fn law_an_ordinary_file_runs_nothing(data: Seq<u8>, filename: Seq<char>)
    requires
        autoexec::shell_link(data) is None,
        archive::archive_entries(data) matches Some(entries) ==> forall|k: int|
            0 <= k < entries.len() ==> text::ascii_lowercase(
                text::base_name((#[trigger] entries[k]).name),
            ) != text::ascii_lowercase("vbaProject.bin"@) && text::ascii_lowercase(
                text::base_name(entries[k].name),
            ) != text::ascii_lowercase("autorun.inf"@),
        !sequences::begins_with(data, seq![0xD0u8, 0xCF, 0x11, 0xE0, 0xA1, 0xB1, 0x1A, 0xE1])
            || !autoexec::has_wide(data, "_VBA_PROJECT"@),
        autoexec::format_row(text::tail_extension(filename)) is None,
        text::lowercase(text::base_name(filename)) != "autorun.inf"@,
    ensures
        autoexec::execution_findings(data, filename).len() == 0,
        !autoexec::runs_on_open(data, filename),
{
    assert(OLE_HEADER@ =~= seq![0xD0u8, 0xCF, 0x11, 0xE0, 0xA1, 0xB1, 0x1A, 0xE1]);
    let ext = text::tail_extension(filename);
    law_formats_that_run(ext);
    if let Some(entries) = archive::archive_entries(data) {
        law_a_package_without_the_part_has_no_macros(entries, ext);
        if autoexec::entry_named(entries, "autorun.inf"@) is Some {
            let k = choose|k: int| autoexec::entry_named_at(entries, "autorun.inf"@, k);
            assert(text::same_ignoring_ascii_case(
                text::base_name(entries[k].name),
                "autorun.inf"@,
            ));
        }
    }
}

// ---------------------------------------------------------------------------
// Formats
// ---------------------------------------------------------------------------

proof fn lemma_format_row(ext: Seq<char>, k: int)
    requires
        0 <= k < EXECUTING_FORMATS@.len(),
        EXECUTING_FORMATS@[k].0@ == ext,
    ensures
        autoexec::format_row(ext) matches Some(row) && 0 <= row <= k && EXECUTING_FORMATS@[row].0@
            == ext,
    decreases k,
{
    if forall|j: int| 0 <= j < k ==> (#[trigger] EXECUTING_FORMATS@[j]).0@ != ext {
        assert(autoexec::format_row_at(ext, k));
    } else {
        let j = choose|j: int| 0 <= j < k && (#[trigger] EXECUTING_FORMATS@[j]).0@ == ext;
        lemma_format_row(ext, j);
    }
}

/// The extension of each row, by a key that tells them apart.
proof fn lemma_format_keys()
    ensures
        EXECUTING_FORMATS@[0].0@ == "exe"@ && text::short_key("exe"@) == 0x3657865,
        EXECUTING_FORMATS@[1].0@ == "msi"@ && text::short_key("msi"@) == 0x36D7369,
        EXECUTING_FORMATS@[2].0@ == "jar"@ && text::short_key("jar"@) == 0x36A6172,
        EXECUTING_FORMATS@[3].0@ == "ps1"@ && text::short_key("ps1"@) == 0x3707331,
        EXECUTING_FORMATS@[4].0@ == "bat"@ && text::short_key("bat"@) == 0x3626174,
        EXECUTING_FORMATS@[5].0@ == "cmd"@ && text::short_key("cmd"@) == 0x3636D64,
        EXECUTING_FORMATS@[6].0@ == "reg"@ && text::short_key("reg"@) == 0x3726567,
        EXECUTING_FORMATS@[7].0@ == "msc"@ && text::short_key("msc"@) == 0x36D7363,
        EXECUTING_FORMATS@[8].0@ == "scr"@ && text::short_key("scr"@) == 0x3736372,
        EXECUTING_FORMATS@[9].0@ == "cpl"@ && text::short_key("cpl"@) == 0x363706C,
        EXECUTING_FORMATS@[10].0@ == "pif"@ && text::short_key("pif"@) == 0x3706966,
        EXECUTING_FORMATS@[11].0@ == "hta"@ && text::short_key("hta"@) == 0x3687461,
        EXECUTING_FORMATS@[12].0@ == "wsf"@ && text::short_key("wsf"@) == 0x3777366,
        EXECUTING_FORMATS@[13].0@ == "wsh"@ && text::short_key("wsh"@) == 0x3777368,
        EXECUTING_FORMATS@[14].0@ == "vbs"@ && text::short_key("vbs"@) == 0x3766273,
        EXECUTING_FORMATS@[15].0@ == "vbe"@ && text::short_key("vbe"@) == 0x3766265,
        EXECUTING_FORMATS@[16].0@ == "js"@ && text::short_key("js"@) == 0x26A7300,
        EXECUTING_FORMATS@[17].0@ == "jse"@ && text::short_key("jse"@) == 0x36A7365,
        EXECUTING_FORMATS@[18].0@ == "scf"@ && text::short_key("scf"@) == 0x3736366,
        EXECUTING_FORMATS@[19].0@ == "chm"@ && text::short_key("chm"@) == 0x363686D,
        EXECUTING_FORMATS@[20].0@ == "settingcontent-ms"@ && text::short_key("settingcontent-ms"@) == 0x11736574,
        EXECUTING_FORMATS@[21].0@ == "appref-ms"@ && text::short_key("appref-ms"@) == 0x9617070,
        EXECUTING_FORMATS@[22].0@ == "diagcab"@ && text::short_key("diagcab"@) == 0x7646961,
        EXECUTING_FORMATS@[23].0@ == "lnk"@ && text::short_key("lnk"@) == 0x36C6E6B,
        EXECUTING_FORMATS@[24].0@ == "url"@ && text::short_key("url"@) == 0x375726C,
        EXECUTING_FORMATS@[25].0@ == "website"@ && text::short_key("website"@) == 0x7776562,
        EXECUTING_FORMATS@[26].0@ == "iso"@ && text::short_key("iso"@) == 0x369736F,
        EXECUTING_FORMATS@[27].0@ == "img"@ && text::short_key("img"@) == 0x3696D67,
        EXECUTING_FORMATS@[28].0@ == "vhd"@ && text::short_key("vhd"@) == 0x3766864,
        EXECUTING_FORMATS@[29].0@ == "vhdx"@ && text::short_key("vhdx"@) == 0x4766864,
{
    reveal_strlit("exe");
    reveal_strlit("msi");
    reveal_strlit("jar");
    reveal_strlit("ps1");
    reveal_strlit("bat");
    reveal_strlit("cmd");
    reveal_strlit("reg");
    reveal_strlit("msc");
    reveal_strlit("scr");
    reveal_strlit("cpl");
    reveal_strlit("pif");
    reveal_strlit("hta");
    reveal_strlit("wsf");
    reveal_strlit("wsh");
    reveal_strlit("vbs");
    reveal_strlit("vbe");
    reveal_strlit("js");
    reveal_strlit("jse");
    reveal_strlit("scf");
    reveal_strlit("chm");
    reveal_strlit("settingcontent-ms");
    reveal_strlit("appref-ms");
    reveal_strlit("diagcab");
    reveal_strlit("lnk");
    reveal_strlit("url");
    reveal_strlit("website");
    reveal_strlit("iso");
    reveal_strlit("img");
    reveal_strlit("vhd");
    reveal_strlit("vhdx");
}

/// Which formats run when opened, and how odd it is to receive one: a program
/// little, an encoded script most. Nothing else runs by its name alone.
pub proof fn law_formats_that_run(ext: Seq<char>)
    ensures
        ext == "exe"@ ==> finding::reports(autoexec::format_findings(ext), Severity::Low, 2_000),
        ext == "msi"@ ==> finding::reports(autoexec::format_findings(ext), Severity::Low, 2_000),
        ext == "jar"@ ==> finding::reports(autoexec::format_findings(ext), Severity::Medium, 3_000),
        ext == "ps1"@ ==> finding::reports(autoexec::format_findings(ext), Severity::Medium, 3_000),
        ext == "bat"@ ==> finding::reports(autoexec::format_findings(ext), Severity::Medium, 3_500),
        ext == "cmd"@ ==> finding::reports(autoexec::format_findings(ext), Severity::Medium, 3_500),
        ext == "reg"@ ==> finding::reports(autoexec::format_findings(ext), Severity::Medium, 3_500),
        ext == "msc"@ ==> finding::reports(autoexec::format_findings(ext), Severity::Medium, 4_000),
        ext == "scr"@ ==> finding::reports(autoexec::format_findings(ext), Severity::High, 5_500),
        ext == "cpl"@ ==> finding::reports(autoexec::format_findings(ext), Severity::High, 5_500),
        ext == "pif"@ ==> finding::reports(autoexec::format_findings(ext), Severity::High, 6_500),
        ext == "hta"@ ==> finding::reports(autoexec::format_findings(ext), Severity::High, 6_500),
        ext == "wsf"@ ==> finding::reports(autoexec::format_findings(ext), Severity::High, 6_000),
        ext == "wsh"@ ==> finding::reports(autoexec::format_findings(ext), Severity::Medium, 5_000),
        ext == "vbs"@ ==> finding::reports(autoexec::format_findings(ext), Severity::High, 5_500),
        ext == "vbe"@ ==> finding::reports(autoexec::format_findings(ext), Severity::High, 7_000),
        ext == "js"@ ==> finding::reports(autoexec::format_findings(ext), Severity::Medium, 5_000),
        ext == "jse"@ ==> finding::reports(autoexec::format_findings(ext), Severity::High, 7_000),
        ext == "scf"@ ==> finding::reports(autoexec::format_findings(ext), Severity::High, 6_000),
        ext == "chm"@ ==> finding::reports(autoexec::format_findings(ext), Severity::High, 5_500),
        ext == "settingcontent-ms"@ ==> finding::reports(autoexec::format_findings(ext), Severity::High, 7_000),
        ext == "appref-ms"@ ==> finding::reports(autoexec::format_findings(ext), Severity::High, 6_000),
        ext == "diagcab"@ ==> finding::reports(autoexec::format_findings(ext), Severity::High, 6_500),
        ext == "lnk"@ ==> finding::reports(autoexec::format_findings(ext), Severity::High, 6_000),
        ext == "url"@ ==> finding::reports(autoexec::format_findings(ext), Severity::Medium, 4_500),
        ext == "website"@ ==> finding::reports(autoexec::format_findings(ext), Severity::Medium, 4_500),
        ext == "iso"@ ==> finding::reports(autoexec::format_findings(ext), Severity::Medium, 5_000),
        ext == "img"@ ==> finding::reports(autoexec::format_findings(ext), Severity::Medium, 5_000),
        ext == "vhd"@ ==> finding::reports(autoexec::format_findings(ext), Severity::Medium, 5_000),
        ext == "vhdx"@ ==> finding::reports(autoexec::format_findings(ext), Severity::Medium, 5_000),
        autoexec::format_row(ext) is Some <==> ({
            ||| ext == "exe"@
            ||| ext == "msi"@
            ||| ext == "jar"@
            ||| ext == "ps1"@
            ||| ext == "bat"@
            ||| ext == "cmd"@
            ||| ext == "reg"@
            ||| ext == "msc"@
            ||| ext == "scr"@
            ||| ext == "cpl"@
            ||| ext == "pif"@
            ||| ext == "hta"@
            ||| ext == "wsf"@
            ||| ext == "wsh"@
            ||| ext == "vbs"@
            ||| ext == "vbe"@
            ||| ext == "js"@
            ||| ext == "jse"@
            ||| ext == "scf"@
            ||| ext == "chm"@
            ||| ext == "settingcontent-ms"@
            ||| ext == "appref-ms"@
            ||| ext == "diagcab"@
            ||| ext == "lnk"@
            ||| ext == "url"@
            ||| ext == "website"@
            ||| ext == "iso"@
            ||| ext == "img"@
            ||| ext == "vhd"@
            ||| ext == "vhdx"@
        }),
        autoexec::format_findings(ext).len() > 0 <==> autoexec::format_row(ext) is Some,
{
    assert(EXECUTING_FORMATS@.len() == 30);
    lemma_format_keys();
    if ext == "exe"@ {
        lemma_format_row(ext, 0);
        assert(autoexec::format_findings(ext)[0].risk == 2_000);
    }
    if ext == "msi"@ {
        lemma_format_row(ext, 1);
        assert(autoexec::format_findings(ext)[0].risk == 2_000);
    }
    if ext == "jar"@ {
        lemma_format_row(ext, 2);
        assert(autoexec::format_findings(ext)[0].risk == 3_000);
    }
    if ext == "ps1"@ {
        lemma_format_row(ext, 3);
        assert(autoexec::format_findings(ext)[0].risk == 3_000);
    }
    if ext == "bat"@ {
        lemma_format_row(ext, 4);
        assert(autoexec::format_findings(ext)[0].risk == 3_500);
    }
    if ext == "cmd"@ {
        lemma_format_row(ext, 5);
        assert(autoexec::format_findings(ext)[0].risk == 3_500);
    }
    if ext == "reg"@ {
        lemma_format_row(ext, 6);
        assert(autoexec::format_findings(ext)[0].risk == 3_500);
    }
    if ext == "msc"@ {
        lemma_format_row(ext, 7);
        assert(autoexec::format_findings(ext)[0].risk == 4_000);
    }
    if ext == "scr"@ {
        lemma_format_row(ext, 8);
        assert(autoexec::format_findings(ext)[0].risk == 5_500);
    }
    if ext == "cpl"@ {
        lemma_format_row(ext, 9);
        assert(autoexec::format_findings(ext)[0].risk == 5_500);
    }
    if ext == "pif"@ {
        lemma_format_row(ext, 10);
        assert(autoexec::format_findings(ext)[0].risk == 6_500);
    }
    if ext == "hta"@ {
        lemma_format_row(ext, 11);
        assert(autoexec::format_findings(ext)[0].risk == 6_500);
    }
    if ext == "wsf"@ {
        lemma_format_row(ext, 12);
        assert(autoexec::format_findings(ext)[0].risk == 6_000);
    }
    if ext == "wsh"@ {
        lemma_format_row(ext, 13);
        assert(autoexec::format_findings(ext)[0].risk == 5_000);
    }
    if ext == "vbs"@ {
        lemma_format_row(ext, 14);
        assert(autoexec::format_findings(ext)[0].risk == 5_500);
    }
    if ext == "vbe"@ {
        lemma_format_row(ext, 15);
        assert(autoexec::format_findings(ext)[0].risk == 7_000);
    }
    if ext == "js"@ {
        lemma_format_row(ext, 16);
        assert(autoexec::format_findings(ext)[0].risk == 5_000);
    }
    if ext == "jse"@ {
        lemma_format_row(ext, 17);
        assert(autoexec::format_findings(ext)[0].risk == 7_000);
    }
    if ext == "scf"@ {
        lemma_format_row(ext, 18);
        assert(autoexec::format_findings(ext)[0].risk == 6_000);
    }
    if ext == "chm"@ {
        lemma_format_row(ext, 19);
        assert(autoexec::format_findings(ext)[0].risk == 5_500);
    }
    if ext == "settingcontent-ms"@ {
        lemma_format_row(ext, 20);
        assert(autoexec::format_findings(ext)[0].risk == 7_000);
    }
    if ext == "appref-ms"@ {
        lemma_format_row(ext, 21);
        assert(autoexec::format_findings(ext)[0].risk == 6_000);
    }
    if ext == "diagcab"@ {
        lemma_format_row(ext, 22);
        assert(autoexec::format_findings(ext)[0].risk == 6_500);
    }
    if ext == "lnk"@ {
        lemma_format_row(ext, 23);
        assert(autoexec::format_findings(ext)[0].risk == 6_000);
    }
    if ext == "url"@ {
        lemma_format_row(ext, 24);
        assert(autoexec::format_findings(ext)[0].risk == 4_500);
    }
    if ext == "website"@ {
        lemma_format_row(ext, 25);
        assert(autoexec::format_findings(ext)[0].risk == 4_500);
    }
    if ext == "iso"@ {
        lemma_format_row(ext, 26);
        assert(autoexec::format_findings(ext)[0].risk == 5_000);
    }
    if ext == "img"@ {
        lemma_format_row(ext, 27);
        assert(autoexec::format_findings(ext)[0].risk == 5_000);
    }
    if ext == "vhd"@ {
        lemma_format_row(ext, 28);
        assert(autoexec::format_findings(ext)[0].risk == 5_000);
    }
    if ext == "vhdx"@ {
        lemma_format_row(ext, 29);
        assert(autoexec::format_findings(ext)[0].risk == 5_000);
    }
    if let Some(k) = autoexec::format_row(ext) {
        assert(autoexec::format_row_at(ext, k));
    }
}

/// A format that runs when opened is reported at its weight, whatever the file
/// holds.
pub proof fn law_a_format_counts_whatever_it_holds(
    data: Seq<u8>,
    filename: Seq<char>,
    severity: Severity,
    risk: int,
)
    requires
        finding::reports(
            autoexec::format_findings(text::tail_extension(filename)),
            severity,
            risk,
        ),
    ensures
        finding::reports(autoexec::execution_findings(data, filename), severity, risk),
        finding::worst_risk(autoexec::execution_findings(data, filename)) >= risk,
        autoexec::runs_on_open(data, filename),
{
    let ext = text::tail_extension(filename);
    lemma_part_is_reported(data, filename, autoexec::format_findings(ext), severity, risk);
}

// ---------------------------------------------------------------------------
// Shortcuts
// ---------------------------------------------------------------------------

/// A text in which a character stands that is no white space does not vanish
/// when it is trimmed.
proof fn lemma_not_blank(s: Seq<char>, i: int)
    requires
        0 <= i < s.len(),
        !text::white_space(s[i]),
    ensures
        text::trimmed(s).len() > 0,
{
    text::law_trimming_takes_off_white_space(s);
    let (from, to) = choose|from: int, to: int|
        0 <= from <= to <= s.len() && text::trimmed(s) == #[trigger] s.subrange(from, to) && (
        forall|j: int|
            (0 <= j < from || to <= j < s.len()) ==> text::white_space(#[trigger] s[j]));
    if from == to {
        assert(text::white_space(s[i]));
    }
}

/// A text in which a fragment stands that starts with no white space does not
/// vanish either.
proof fn lemma_fragment_is_not_blank(s: Seq<char>, fragment: Seq<char>)
    requires
        sequences::occurs(s, fragment),
        fragment.len() > 0,
        !text::white_space(fragment[0]),
    ensures
        text::trimmed(s).len() > 0,
{
    let i = choose|i: int| sequences::occurs_at(s, fragment, i);
    assert(s.subrange(i, i + fragment.len())[0] == s[i]);
    lemma_not_blank(s, i);
}

/// Some fragment is the first.
proof fn lemma_some_fragment(s: Seq<char>, list: Seq<&'static str>, k: int)
    requires
        0 <= k < list.len(),
        sequences::occurs(s, list[k]@),
    ensures
        autoexec::first_fragment(s, list) is Some,
    decreases k,
{
    if forall|j: int| 0 <= j < k ==> !sequences::occurs(s, (#[trigger] list[j])@) {
        assert(autoexec::first_fragment_at(s, list, k));
    } else {
        let j = choose|j: int| 0 <= j < k && sequences::occurs(s, (#[trigger] list[j])@);
        lemma_some_fragment(s, list, j);
    }
}

/// A marker that stands in a command is among its evasions.
proof fn lemma_some_evasion(command: Seq<char>, n: nat, k: int)
    requires
        0 <= k < n <= EVASION_MARKERS@.len(),
        sequences::occurs(command, EVASION_MARKERS@[k].0@),
    ensures
        autoexec::evasions(command, n).len() > 0,
    decreases n,
{
    if k < n - 1 {
        lemma_some_evasion(command, (n - 1) as nat, k);
    }
}

/// A command without a marker has no evasions.
proof fn lemma_no_evasion(command: Seq<char>, n: nat)
    requires
        n <= EVASION_MARKERS@.len(),
        forall|k: int|
            0 <= k < EVASION_MARKERS@.len() ==> !sequences::occurs(
                command,
                (#[trigger] EVASION_MARKERS@[k]).0@,
            ),
    ensures
        autoexec::evasions(command, n).len() == 0,
    decreases n,
{
    if n > 0 {
        lemma_no_evasion(command, (n - 1) as nat);
        assert(!sequences::occurs(command, EVASION_MARKERS@[n - 1].0@));
    }
}

/// Where a tool of the system is named in a command, it is found.
pub proof fn law_tools_of_the_system_are_known(command: Seq<char>, tool: Seq<char>)
    requires
        ({
            ||| tool == "powershell"@
            ||| tool == "pwsh"@
            ||| tool == "cmd.exe"@
            ||| tool == "mshta"@
            ||| tool == "wscript"@
            ||| tool == "cscript"@
            ||| tool == "rundll32"@
            ||| tool == "regsvr32"@
            ||| tool == "certutil"@
            ||| tool == "bitsadmin"@
            ||| tool == "msiexec"@
            ||| tool == "curl"@
            ||| tool == "wmic"@
            ||| tool == "forfiles"@
            ||| tool == "installutil"@
            ||| tool == "msbuild"@
            ||| tool == "cmstp"@
            ||| tool == "odbcconf"@
            ||| tool == "conhost"@
            ||| tool == "explorer.exe"@
            ||| tool == "schtasks"@
            ||| tool == "reg.exe"@
            ||| tool == "wmiprvse"@
        }),
        sequences::occurs(command, tool),
    ensures
        autoexec::first_fragment(command, LOLBINS@) is Some,
        text::trimmed(command).len() > 0,
{
    let list = LOLBINS@;
    assert(list.len() == 23);
    if tool == "powershell"@ {
        reveal_strlit("powershell");
        assert(list[0]@ == tool);
        lemma_some_fragment(command, list, 0);
        lemma_fragment_is_not_blank(command, tool);
    }
    if tool == "pwsh"@ {
        reveal_strlit("pwsh");
        assert(list[1]@ == tool);
        lemma_some_fragment(command, list, 1);
        lemma_fragment_is_not_blank(command, tool);
    }
    if tool == "cmd.exe"@ {
        reveal_strlit("cmd.exe");
        assert(list[2]@ == tool);
        lemma_some_fragment(command, list, 2);
        lemma_fragment_is_not_blank(command, tool);
    }
    if tool == "mshta"@ {
        reveal_strlit("mshta");
        assert(list[3]@ == tool);
        lemma_some_fragment(command, list, 3);
        lemma_fragment_is_not_blank(command, tool);
    }
    if tool == "wscript"@ {
        reveal_strlit("wscript");
        assert(list[4]@ == tool);
        lemma_some_fragment(command, list, 4);
        lemma_fragment_is_not_blank(command, tool);
    }
    if tool == "cscript"@ {
        reveal_strlit("cscript");
        assert(list[5]@ == tool);
        lemma_some_fragment(command, list, 5);
        lemma_fragment_is_not_blank(command, tool);
    }
    if tool == "rundll32"@ {
        reveal_strlit("rundll32");
        assert(list[6]@ == tool);
        lemma_some_fragment(command, list, 6);
        lemma_fragment_is_not_blank(command, tool);
    }
    if tool == "regsvr32"@ {
        reveal_strlit("regsvr32");
        assert(list[7]@ == tool);
        lemma_some_fragment(command, list, 7);
        lemma_fragment_is_not_blank(command, tool);
    }
    if tool == "certutil"@ {
        reveal_strlit("certutil");
        assert(list[8]@ == tool);
        lemma_some_fragment(command, list, 8);
        lemma_fragment_is_not_blank(command, tool);
    }
    if tool == "bitsadmin"@ {
        reveal_strlit("bitsadmin");
        assert(list[9]@ == tool);
        lemma_some_fragment(command, list, 9);
        lemma_fragment_is_not_blank(command, tool);
    }
    if tool == "msiexec"@ {
        reveal_strlit("msiexec");
        assert(list[10]@ == tool);
        lemma_some_fragment(command, list, 10);
        lemma_fragment_is_not_blank(command, tool);
    }
    if tool == "curl"@ {
        reveal_strlit("curl");
        assert(list[11]@ == tool);
        lemma_some_fragment(command, list, 11);
        lemma_fragment_is_not_blank(command, tool);
    }
    if tool == "wmic"@ {
        reveal_strlit("wmic");
        assert(list[12]@ == tool);
        lemma_some_fragment(command, list, 12);
        lemma_fragment_is_not_blank(command, tool);
    }
    if tool == "forfiles"@ {
        reveal_strlit("forfiles");
        assert(list[13]@ == tool);
        lemma_some_fragment(command, list, 13);
        lemma_fragment_is_not_blank(command, tool);
    }
    if tool == "installutil"@ {
        reveal_strlit("installutil");
        assert(list[14]@ == tool);
        lemma_some_fragment(command, list, 14);
        lemma_fragment_is_not_blank(command, tool);
    }
    if tool == "msbuild"@ {
        reveal_strlit("msbuild");
        assert(list[15]@ == tool);
        lemma_some_fragment(command, list, 15);
        lemma_fragment_is_not_blank(command, tool);
    }
    if tool == "cmstp"@ {
        reveal_strlit("cmstp");
        assert(list[16]@ == tool);
        lemma_some_fragment(command, list, 16);
        lemma_fragment_is_not_blank(command, tool);
    }
    if tool == "odbcconf"@ {
        reveal_strlit("odbcconf");
        assert(list[17]@ == tool);
        lemma_some_fragment(command, list, 17);
        lemma_fragment_is_not_blank(command, tool);
    }
    if tool == "conhost"@ {
        reveal_strlit("conhost");
        assert(list[18]@ == tool);
        lemma_some_fragment(command, list, 18);
        lemma_fragment_is_not_blank(command, tool);
    }
    if tool == "explorer.exe"@ {
        reveal_strlit("explorer.exe");
        assert(list[19]@ == tool);
        lemma_some_fragment(command, list, 19);
        lemma_fragment_is_not_blank(command, tool);
    }
    if tool == "schtasks"@ {
        reveal_strlit("schtasks");
        assert(list[20]@ == tool);
        lemma_some_fragment(command, list, 20);
        lemma_fragment_is_not_blank(command, tool);
    }
    if tool == "reg.exe"@ {
        reveal_strlit("reg.exe");
        assert(list[21]@ == tool);
        lemma_some_fragment(command, list, 21);
        lemma_fragment_is_not_blank(command, tool);
    }
    if tool == "wmiprvse"@ {
        reveal_strlit("wmiprvse");
        assert(list[22]@ == tool);
        lemma_some_fragment(command, list, 22);
        lemma_fragment_is_not_blank(command, tool);
    }
}

/// Where a command is written to conceal what it does, that is found.
pub proof fn law_concealment_is_known(command: Seq<char>, marker: Seq<char>)
    requires
        ({
            ||| marker == "-enc"@
            ||| marker == "-encodedcommand"@
            ||| marker == "-e "@
            ||| marker == "frombase64string"@
            ||| marker == "-w hidden"@
            ||| marker == "-windowstyle hidden"@
            ||| marker == "-nop"@
            ||| marker == "-noprofile"@
            ||| marker == "-ep bypass"@
            ||| marker == "-executionpolicy bypass"@
            ||| marker == "downloadstring"@
            ||| marker == "downloadfile"@
            ||| marker == "invoke-expression"@
            ||| marker == "iex "@
            ||| marker == "webclient"@
            ||| marker == "invoke-webrequest"@
            ||| marker == "start-process"@
            ||| marker == "javascript:"@
            ||| marker == "vbscript:"@
        }),
        sequences::occurs(command, marker),
    ensures
        autoexec::evasions(command, EVASION_MARKERS@.len()).len() > 0,
        text::trimmed(command).len() > 0,
{
    let list = EVASION_MARKERS@;
    assert(list.len() == 19);
    if marker == "-enc"@ {
        reveal_strlit("-enc");
        assert(list[0].0@ == marker);
        lemma_some_evasion(command, 19, 0);
        lemma_fragment_is_not_blank(command, marker);
    }
    if marker == "-encodedcommand"@ {
        reveal_strlit("-encodedcommand");
        assert(list[1].0@ == marker);
        lemma_some_evasion(command, 19, 1);
        lemma_fragment_is_not_blank(command, marker);
    }
    if marker == "-e "@ {
        reveal_strlit("-e ");
        assert(list[2].0@ == marker);
        lemma_some_evasion(command, 19, 2);
        lemma_fragment_is_not_blank(command, marker);
    }
    if marker == "frombase64string"@ {
        reveal_strlit("frombase64string");
        assert(list[3].0@ == marker);
        lemma_some_evasion(command, 19, 3);
        lemma_fragment_is_not_blank(command, marker);
    }
    if marker == "-w hidden"@ {
        reveal_strlit("-w hidden");
        assert(list[4].0@ == marker);
        lemma_some_evasion(command, 19, 4);
        lemma_fragment_is_not_blank(command, marker);
    }
    if marker == "-windowstyle hidden"@ {
        reveal_strlit("-windowstyle hidden");
        assert(list[5].0@ == marker);
        lemma_some_evasion(command, 19, 5);
        lemma_fragment_is_not_blank(command, marker);
    }
    if marker == "-nop"@ {
        reveal_strlit("-nop");
        assert(list[6].0@ == marker);
        lemma_some_evasion(command, 19, 6);
        lemma_fragment_is_not_blank(command, marker);
    }
    if marker == "-noprofile"@ {
        reveal_strlit("-noprofile");
        assert(list[7].0@ == marker);
        lemma_some_evasion(command, 19, 7);
        lemma_fragment_is_not_blank(command, marker);
    }
    if marker == "-ep bypass"@ {
        reveal_strlit("-ep bypass");
        assert(list[8].0@ == marker);
        lemma_some_evasion(command, 19, 8);
        lemma_fragment_is_not_blank(command, marker);
    }
    if marker == "-executionpolicy bypass"@ {
        reveal_strlit("-executionpolicy bypass");
        assert(list[9].0@ == marker);
        lemma_some_evasion(command, 19, 9);
        lemma_fragment_is_not_blank(command, marker);
    }
    if marker == "downloadstring"@ {
        reveal_strlit("downloadstring");
        assert(list[10].0@ == marker);
        lemma_some_evasion(command, 19, 10);
        lemma_fragment_is_not_blank(command, marker);
    }
    if marker == "downloadfile"@ {
        reveal_strlit("downloadfile");
        assert(list[11].0@ == marker);
        lemma_some_evasion(command, 19, 11);
        lemma_fragment_is_not_blank(command, marker);
    }
    if marker == "invoke-expression"@ {
        reveal_strlit("invoke-expression");
        assert(list[12].0@ == marker);
        lemma_some_evasion(command, 19, 12);
        lemma_fragment_is_not_blank(command, marker);
    }
    if marker == "iex "@ {
        reveal_strlit("iex ");
        assert(list[13].0@ == marker);
        lemma_some_evasion(command, 19, 13);
        lemma_fragment_is_not_blank(command, marker);
    }
    if marker == "webclient"@ {
        reveal_strlit("webclient");
        assert(list[14].0@ == marker);
        lemma_some_evasion(command, 19, 14);
        lemma_fragment_is_not_blank(command, marker);
    }
    if marker == "invoke-webrequest"@ {
        reveal_strlit("invoke-webrequest");
        assert(list[15].0@ == marker);
        lemma_some_evasion(command, 19, 15);
        lemma_fragment_is_not_blank(command, marker);
    }
    if marker == "start-process"@ {
        reveal_strlit("start-process");
        assert(list[16].0@ == marker);
        lemma_some_evasion(command, 19, 16);
        lemma_fragment_is_not_blank(command, marker);
    }
    if marker == "javascript:"@ {
        reveal_strlit("javascript:");
        assert(list[17].0@ == marker);
        lemma_some_evasion(command, 19, 17);
        lemma_fragment_is_not_blank(command, marker);
    }
    if marker == "vbscript:"@ {
        reveal_strlit("vbscript:");
        assert(list[18].0@ == marker);
        lemma_some_evasion(command, 19, 18);
        lemma_fragment_is_not_blank(command, marker);
    }
}

/// The icons of documents are known.
pub proof fn law_document_icons_are_known(icon: Seq<char>, mark: Seq<char>)
    requires
        mark == "shell32.dll"@ || mark == "imageres.dll"@ || mark == "wordicon"@ || mark
            == "acrobat"@ || mark == "excel"@,
        sequences::occurs(icon, mark),
    ensures
        autoexec::first_fragment(icon, DOCUMENT_ICONS@) is Some,
{
    let list = DOCUMENT_ICONS@;
    assert(list.len() == 5);
    if mark == "shell32.dll"@ {
        assert(list[0]@ == mark);
        lemma_some_fragment(icon, list, 0);
    }
    if mark == "imageres.dll"@ {
        assert(list[1]@ == mark);
        lemma_some_fragment(icon, list, 1);
    }
    if mark == "wordicon"@ {
        assert(list[2]@ == mark);
        lemma_some_fragment(icon, list, 2);
    }
    if mark == "acrobat"@ {
        assert(list[3]@ == mark);
        lemma_some_fragment(icon, list, 3);
    }
    if mark == "excel"@ {
        assert(list[4]@ == mark);
        lemma_some_fragment(icon, list, 4);
    }
}

/// A shortcut that hands a command to a tool of the system is reported: as
/// critical where the command is written to conceal what it does, as high
/// otherwise. A hidden start and the icon of a document are reported on top. A
/// command that conceals what it does is reported whatever it runs.
pub proof fn law_a_shortcut_that_runs_a_tool_is_reported(link: LinkModel)
    requires
        ({
            let command = text::lowercase(
                autoexec::or_empty(link.relative_path) + " "@ + autoexec::or_empty(link.arguments),
            );
            text::trimmed(command).len() > 0
        }),
    ensures
        ({
            let command = text::lowercase(
                autoexec::or_empty(link.relative_path) + " "@ + autoexec::or_empty(link.arguments),
            );
            let tool = autoexec::first_fragment(command, LOLBINS@) is Some;
            let conceals = autoexec::evasions(command, EVASION_MARKERS@.len()).len() > 0;
            let all = autoexec::shortcut_findings(link);
            &&& tool && conceals ==> finding::reports(all, Severity::Critical, 9_000)
            &&& tool && !conceals ==> finding::reports(all, Severity::High, 7_000)
            &&& !tool && conceals ==> finding::reports(all, Severity::High, 7_500)
            &&& tool && link.starts_hidden && text::trimmed(
                autoexec::or_empty(link.arguments),
            ).len() > 0 ==> finding::reports(all, Severity::High, 6_000)
            &&& tool && (link.icon_location matches Some(icon) && autoexec::first_fragment(
                text::lowercase(icon),
                DOCUMENT_ICONS@,
            ) is Some) ==> finding::reports(all, Severity::High, 7_000)
        }),
{
    let command = autoexec::command_line(link);
    let lowered = text::lowercase(command);
    let tool = autoexec::first_fragment(lowered, LOLBINS@) is Some;
    let a = autoexec::command_findings(command, lowered);
    let b = autoexec::hidden_findings(link, tool);
    let c = autoexec::icon_findings(link, tool);
    let none = Seq::<FindingModel>::empty();
    assert(none + a + (b + c) =~= a + b + c);
    assert(a + b + c + none =~= a + b + c);
    if a.len() == 1 {
        finding::lemma_single_is_reported(a, a[0].severity, a[0].risk);
        finding::lemma_reported_within(none, a, b + c, a[0].severity, a[0].risk);
    }
    if b.len() == 1 {
        finding::lemma_single_is_reported(b, b[0].severity, b[0].risk);
        finding::lemma_reported_within(a, b, c, b[0].severity, b[0].risk);
    }
    if c.len() == 1 {
        finding::lemma_single_is_reported(c, c[0].severity, c[0].risk);
        finding::lemma_reported_within(a + b, c, none, c[0].severity, c[0].risk);
    }
}

/// What a shortcut gives away counts whatever the file is called, and a shortcut
/// runs something when opened.
pub proof fn law_a_shortcut_counts_under_any_name(
    data: Seq<u8>,
    filename: Seq<char>,
    link: LinkModel,
    severity: Severity,
    risk: int,
)
    requires
        autoexec::shell_link(data) == Some(link),
    ensures
        finding::reports(autoexec::shortcut_findings(link), severity, risk) ==> finding::reports(
            autoexec::execution_findings(data, filename),
            severity,
            risk,
        ) && finding::worst_risk(autoexec::execution_findings(data, filename)) >= risk,
        autoexec::runs_on_open(data, filename),
{
    if finding::reports(autoexec::shortcut_findings(link), severity, risk) {
        lemma_part_is_reported(
            data,
            filename,
            autoexec::embedded_link_findings(data),
            severity,
            risk,
        );
    }
}

/// A string of a shortcut, as it is laid out: its length in characters, then its
/// bytes, of which a character takes two where `unicode` says so.
pub open spec fn laid_out(s: Option<Seq<u8>>, unicode: bool) -> Seq<u8> {
    match s {
        Some(raw) => bytes::bytes16(
            (raw.len() / if unicode {
                2
            } else {
                1
            }) as u16,
        ) + raw,
        None => Seq::empty(),
    }
}

/// A string that can be laid out.
pub open spec fn fits(s: Option<Seq<u8>>, unicode: bool) -> bool {
    s matches Some(raw) ==> if unicode {
        raw.len() % 2 == 0 && raw.len() / 2 <= 0xFFFF
    } else {
        raw.len() <= 0xFFFF
    }
}

/// The text of an optional string.
pub open spec fn text_if(s: Option<Seq<u8>>, unicode: bool) -> Option<Seq<char>> {
    match s {
        Some(raw) => Some(
            if unicode {
                text::utf16_lossy(autoexec::code_units(raw))
            } else {
                text::utf8_lossy(raw)
            },
        ),
        None => None,
    }
}

/// A string that was laid out is read back, and reading goes on behind it.
proof fn lemma_string_is_read(
    before: Seq<u8>,
    s: Option<Seq<u8>>,
    after: Seq<u8>,
    unicode: bool,
)
    requires
        fits(s, unicode),
    ensures
        autoexec::string_if(
            s is Some,
            before + laid_out(s, unicode) + after,
            before.len() as int,
            unicode,
        ) == Some((text_if(s, unicode), (before.len() + laid_out(s, unicode).len()) as int)),
{
    if let Some(raw) = s {
        let part = laid_out(s, unicode);
        let data = before + part + after;
        let n = before.len() as int;
        assert(data[n] == part[0] && data[n + 1] == part[1]);
        assert(data.subrange(n + 2, n + 2 + raw.len()) =~= raw);
    }
}

/// The number that a flag adds.
pub open spec fn bit(set: bool, weight: u32) -> u32 {
    if set {
        weight
    } else {
        0
    }
}

/// The flags of the strings that are there.
proof fn lemma_flags(name: bool, path: bool, dir: bool, args: bool, icon: bool, unicode: bool)
    ensures
        ({
            let flags = (bit(name, 4) + bit(path, 8) + bit(dir, 16) + bit(args, 32) + bit(icon, 64)
                + bit(unicode, 128)) as u32;
            &&& !autoexec::flag(flags, 1)
            &&& !autoexec::flag(flags, 2)
            &&& autoexec::flag(flags, 4) == name
            &&& autoexec::flag(flags, 8) == path
            &&& autoexec::flag(flags, 16) == dir
            &&& autoexec::flag(flags, 32) == args
            &&& autoexec::flag(flags, 64) == icon
            &&& autoexec::flag(flags, 128) == unicode
        }),
{
}

/// A shortcut reads as it was laid out: behind its header stand the strings that
/// the flags announce, in their order, the name, the relative path, the working
/// directory, the arguments and the icon, and each is read from its own place.
pub proof fn law_a_shortcut_reads_as_laid_out(
    header: Seq<u8>,
    name: Option<Seq<u8>>,
    path: Option<Seq<u8>>,
    dir: Option<Seq<u8>>,
    args: Option<Seq<u8>>,
    icon: Option<Seq<u8>>,
    unicode: bool,
    rest: Seq<u8>,
)
    requires
        header.len() == 0x4C,
        bytes::word32(header, 0) == Some(0x4Cu32),
        header.subrange(4, 20) == seq![
            0x01u8, 0x14, 0x02, 0x00, 0x00, 0x00, 0x00, 0x00, 0xC0, 0x00, 0x00, 0x00, 0x00, 0x00,
            0x00, 0x46,
        ],
        bytes::word32(header, 20) == Some(
            (bit(name is Some, 4) + bit(path is Some, 8) + bit(dir is Some, 16) + bit(
                args is Some,
                32,
            ) + bit(icon is Some, 64) + bit(unicode, 128)) as u32,
        ),
        fits(name, unicode),
        fits(path, unicode),
        fits(dir, unicode),
        fits(args, unicode),
        fits(icon, unicode),
    ensures
        autoexec::shell_link(
            header + laid_out(name, unicode) + laid_out(path, unicode) + laid_out(dir, unicode)
                + laid_out(args, unicode) + laid_out(icon, unicode) + rest,
        ) == Some(
            (LinkModel {
                relative_path: text_if(path, unicode),
                working_dir: text_if(dir, unicode),
                arguments: text_if(args, unicode),
                icon_location: text_if(icon, unicode),
                starts_hidden: bytes::word32(header, 60) == Some(7u32),
            }),
        ),
{
    let a = laid_out(name, unicode);
    let b = laid_out(path, unicode);
    let c = laid_out(dir, unicode);
    let d = laid_out(args, unicode);
    let e = laid_out(icon, unicode);
    let data = header + a + b + c + d + e + rest;
    let strings = a + b + c + d + e + rest;
    lemma_regrouped(header, a, b, c, d, e, rest);
    lemma_header_is_kept(header, strings);
    lemma_string_is_read(header, name, b + c + d + e + rest, unicode);
    lemma_string_is_read(header + a, path, c + d + e + rest, unicode);
    lemma_string_is_read(header + a + b, dir, d + e + rest, unicode);
    lemma_string_is_read(header + a + b + c, args, e + rest, unicode);
    lemma_string_is_read(header + a + b + c + d, icon, rest, unicode);
    lemma_strings_make_the_link(
        data,
        name,
        path,
        dir,
        args,
        icon,
        unicode,
        (header + a).len() as int,
        (header + a + b).len() as int,
        (header + a + b + c).len() as int,
        (header + a + b + c + d).len() as int,
        (header + a + b + c + d + e).len() as int,
    );
}

/// Parts put one behind the other, however they are grouped.
proof fn lemma_regrouped(
    header: Seq<u8>,
    a: Seq<u8>,
    b: Seq<u8>,
    c: Seq<u8>,
    d: Seq<u8>,
    e: Seq<u8>,
    rest: Seq<u8>,
)
    ensures
        ({
            let data = header + a + b + c + d + e + rest;
            &&& data == header + (a + b + c + d + e + rest)
            &&& data == header + a + (b + c + d + e + rest)
            &&& data == header + a + b + (c + d + e + rest)
            &&& data == header + a + b + c + (d + e + rest)
            &&& data == header + a + b + c + d + (e + rest)
        }),
{
    let data = header + a + b + c + d + e + rest;
    assert(data =~= header + (a + b + c + d + e + rest));
    assert(data =~= header + a + (b + c + d + e + rest));
    assert(data =~= header + a + b + (c + d + e + rest));
    assert(data =~= header + a + b + c + (d + e + rest));
    assert(data =~= header + a + b + c + d + (e + rest));
}

/// The strings that are read one behind the other make up the link.
proof fn lemma_strings_make_the_link(
    data: Seq<u8>,
    name: Option<Seq<u8>>,
    path: Option<Seq<u8>>,
    dir: Option<Seq<u8>>,
    args: Option<Seq<u8>>,
    icon: Option<Seq<u8>>,
    unicode: bool,
    n1: int,
    n2: int,
    n3: int,
    n4: int,
    n5: int,
)
    requires
        autoexec::is_link(data),
        bytes::word32(data, 20) == Some(
            (bit(name is Some, 4) + bit(path is Some, 8) + bit(dir is Some, 16) + bit(
                args is Some,
                32,
            ) + bit(icon is Some, 64) + bit(unicode, 128)) as u32,
        ),
        autoexec::string_if(name is Some, data, 0x4C, unicode) == Some((text_if(name, unicode), n1)),
        autoexec::string_if(path is Some, data, n1, unicode) == Some((text_if(path, unicode), n2)),
        autoexec::string_if(dir is Some, data, n2, unicode) == Some((text_if(dir, unicode), n3)),
        autoexec::string_if(args is Some, data, n3, unicode) == Some((text_if(args, unicode), n4)),
        autoexec::string_if(icon is Some, data, n4, unicode) == Some((text_if(icon, unicode), n5)),
    ensures
        autoexec::shell_link(data) == Some(
            (LinkModel {
                relative_path: text_if(path, unicode),
                working_dir: text_if(dir, unicode),
                arguments: text_if(args, unicode),
                icon_location: text_if(icon, unicode),
                starts_hidden: bytes::word32(data, 60) == Some(7u32),
            }),
        ),
{
    let flags = bytes::word32(data, 20)->0;
    lemma_flags(
        name is Some,
        path is Some,
        dir is Some,
        args is Some,
        icon is Some,
        unicode,
    );
    assert(autoexec::behind_info(data, flags) == Some(0x4Cint));
}

/// The header of a shortcut is the same whatever follows it.
proof fn lemma_header_is_kept(header: Seq<u8>, strings: Seq<u8>)
    requires
        header.len() == 0x4C,
        bytes::word32(header, 0) == Some(0x4Cu32),
        header.subrange(4, 20) == seq![
            0x01u8, 0x14, 0x02, 0x00, 0x00, 0x00, 0x00, 0x00, 0xC0, 0x00, 0x00, 0x00, 0x00, 0x00,
            0x00, 0x46,
        ],
    ensures
        autoexec::is_link(header + strings),
        bytes::word32(header + strings, 20) == bytes::word32(header, 20),
        bytes::word32(header + strings, 60) == bytes::word32(header, 60),
{
    let data = header + strings;
    assert(LINK_CLSID@ =~= seq![
        0x01u8, 0x14, 0x02, 0x00, 0x00, 0x00, 0x00, 0x00, 0xC0, 0x00, 0x00, 0x00, 0x00, 0x00, 0x00,
        0x46,
    ]);
    assert(data.subrange(4, 20) =~= header.subrange(4, 20));
}

/// Nothing but a shortcut is read as one: the header must be whole, name its own
/// size, and carry the class of shortcuts.
pub proof fn law_only_a_shortcut_reads_as_one(data: Seq<u8>)
    requires
        autoexec::shell_link(data) is Some,
    ensures
        data.len() >= 0x4C,
        bytes::word32(data, 0) == Some(0x4Cu32),
        data.subrange(4, 20) == seq![
            0x01u8, 0x14, 0x02, 0x00, 0x00, 0x00, 0x00, 0x00, 0xC0, 0x00, 0x00, 0x00, 0x00, 0x00,
            0x00, 0x46,
        ],
{
    assert(LINK_CLSID@ =~= seq![
        0x01u8, 0x14, 0x02, 0x00, 0x00, 0x00, 0x00, 0x00, 0xC0, 0x00, 0x00, 0x00, 0x00, 0x00, 0x00,
        0x46,
    ]);
}

// ---------------------------------------------------------------------------
// Macros
// ---------------------------------------------------------------------------

/// An entry under a name, in any case and any folder, is found under it.
proof fn lemma_entry_is_found(entries: Seq<EntryModel>, name: Seq<char>, k: int)
    requires
        0 <= k < entries.len(),
        text::same_ignoring_ascii_case(text::base_name(entries[k].name), name),
    ensures
        autoexec::entry_named(entries, name) is Some,
    decreases k,
{
    if forall|j: int|
        0 <= j < k ==> !text::same_ignoring_ascii_case(
            text::base_name((#[trigger] entries[j]).name),
            name,
        ) {
        assert(autoexec::entry_named_at(entries, name, k));
    } else {
        let j = choose|j: int|
            0 <= j < k && text::same_ignoring_ascii_case(
                text::base_name((#[trigger] entries[j]).name),
                name,
            );
        lemma_entry_is_found(entries, name, j);
    }
}

/// Macros in a package are reported, in whatever folder of it and however their
/// part is spelled: as critical where the extension promises that there are
/// none, as medium where it admits to them, and as high where the file claims
/// to be something else.
pub proof fn law_macros_in_a_package_are_reported(
    data: Seq<u8>,
    filename: Seq<char>,
    entries: Seq<EntryModel>,
    k: int,
)
    requires
        archive::archive_entries(data) == Some(entries),
        0 <= k < entries.len(),
        text::ascii_lowercase(text::base_name(entries[k].name)) == text::ascii_lowercase(
            "vbaProject.bin"@,
        ),
    ensures
        ({
            let ext = text::tail_extension(filename);
            let all = autoexec::execution_findings(data, filename);
            let free = {
                ||| ext == "docx"@
                ||| ext == "xlsx"@
                ||| ext == "pptx"@
                ||| ext == "dotx"@
                ||| ext == "xltx"@
                ||| ext == "potx"@
            };
            let admitted = {
                ||| ext == "docm"@
                ||| ext == "xlsm"@
                ||| ext == "pptm"@
                ||| ext == "dotm"@
                ||| ext == "xltm"@
                ||| ext == "potm"@
                ||| ext == "xlam"@
                ||| ext == "ppam"@
            };
            &&& free ==> finding::reports(all, Severity::Critical, 7_500)
            &&& !free && admitted ==> finding::reports(all, Severity::Medium, 4_500)
            &&& !free && !admitted ==> finding::reports(all, Severity::High, 5_500)
            &&& autoexec::runs_on_open(data, filename)
        }),
{
    let ext = text::tail_extension(filename);
    let free = MACRO_FREE_OOXML@;
    let admitted = MACRO_ENABLED_OOXML@;
    assert(free.len() == 6 && admitted.len() == 8);
    assert(free[0]@ == "docx"@);
    assert(free[1]@ == "xlsx"@);
    assert(free[2]@ == "pptx"@);
    assert(free[3]@ == "dotx"@);
    assert(free[4]@ == "xltx"@);
    assert(free[5]@ == "potx"@);
    assert(admitted[0]@ == "docm"@);
    assert(admitted[1]@ == "xlsm"@);
    assert(admitted[2]@ == "pptm"@);
    assert(admitted[3]@ == "dotm"@);
    assert(admitted[4]@ == "xltm"@);
    assert(admitted[5]@ == "potm"@);
    assert(admitted[6]@ == "xlam"@);
    assert(admitted[7]@ == "ppam"@);
    lemma_entry_is_found(entries, "vbaProject.bin"@, k);
    let part = autoexec::package_macro_findings(data, ext);
    let old = autoexec::ole_macro_findings(data);
    let none = Seq::<FindingModel>::empty();
    let f = autoexec::package_macro(ext);
    finding::lemma_single_is_reported(part, f.severity, f.risk);
    finding::lemma_reported_within(none, part, old, f.severity, f.risk);
    assert(none + part + old =~= part + old);
    lemma_part_is_reported(
        data,
        filename,
        autoexec::document_findings(data, ext),
        f.severity,
        f.risk,
    );
}

/// A package without such a part has no macros.
pub proof fn law_a_package_without_the_part_has_no_macros(
    entries: Seq<EntryModel>,
    ext: Seq<char>,
)
    requires
        forall|k: int|
            0 <= k < entries.len() ==> text::ascii_lowercase(
                text::base_name((#[trigger] entries[k]).name),
            ) != text::ascii_lowercase("vbaProject.bin"@),
    ensures
        autoexec::macro_part_findings(entries, ext).len() == 0,
{
    if autoexec::entry_named(entries, "vbaProject.bin"@) is Some {
        let k = choose|k: int| autoexec::entry_named_at(entries, "vbaProject.bin"@, k);
        assert(text::same_ignoring_ascii_case(
            text::base_name(entries[k].name),
            "vbaProject.bin"@,
        ));
    }
}

/// A name that stands in the front of the data, a zero behind each of its
/// bytes, is found there.
proof fn lemma_wide_is_found(data: Seq<u8>, s: Seq<char>, at: int)
    requires
        0 <= at,
        at + 2 * s.len() <= data.len(),
        at + 2 * s.len() <= 1_048_576,
        forall|j: int| 0 <= j < s.len() ==> (#[trigger] s[j] as u32) < 0x80,
        forall|j: int|
            0 <= j < s.len() ==> data[at + 2 * j] as char == #[trigger] s[j] && data[at + 2 * j + 1]
                == 0,
    ensures
        autoexec::has_wide(data, s),
{
    let window = autoexec::front(data, 1_048_576);
    let pat = autoexec::wide(s);
    let part = window.subrange(at, at + pat.len());
    assert forall|i: int| 0 <= i < pat.len() implies part[i] == pat[i] by {
        let j = i / 2;
        assert(window[at + i] == data[at + i]);
        assert(data[at + 2 * j] as char == s[j]);
        if i % 2 == 0 {
            assert(i == 2 * j);
        } else {
            assert(i == 2 * j + 1);
        }
    }
    assert(part =~= pat);
    assert(sequences::occurs_at(window, pat, at));
}

/// Macros in a compound document are reported: the names of their storage and
/// of their project stand in its directory, within its first megabyte.
pub proof fn law_macros_in_a_compound_document_are_reported(
    data: Seq<u8>,
    filename: Seq<char>,
    storage: int,
    project: int,
)
    requires
        sequences::begins_with(data, seq![0xD0u8, 0xCF, 0x11, 0xE0, 0xA1, 0xB1, 0x1A, 0xE1]),
        0 <= storage && storage + 6 <= data.len() && storage + 6 <= 1_048_576,
        0 <= project && project + 24 <= data.len() && project + 24 <= 1_048_576,
        forall|j: int|
            0 <= j < 3 ==> data[storage + 2 * j] as char == #[trigger] "VBA"@[j] && data[storage + 2
                * j + 1] == 0,
        forall|j: int|
            0 <= j < 12 ==> data[project + 2 * j] as char == #[trigger] "_VBA_PROJECT"@[j]
                && data[project + 2 * j + 1] == 0,
    ensures
        finding::reports(autoexec::execution_findings(data, filename), Severity::High, 5_000),
        autoexec::runs_on_open(data, filename),
{
    let ext = text::tail_extension(filename);
    assert(OLE_HEADER@ =~= seq![0xD0u8, 0xCF, 0x11, 0xE0, 0xA1, 0xB1, 0x1A, 0xE1]);
    reveal_strlit("VBA");
    reveal_strlit("_VBA_PROJECT");
    lemma_wide_is_found(data, "VBA"@, storage);
    lemma_wide_is_found(data, "_VBA_PROJECT"@, project);
    let part = autoexec::package_macro_findings(data, ext);
    let old = autoexec::ole_macro_findings(data);
    let none = Seq::<FindingModel>::empty();
    finding::lemma_single_is_reported(old, Severity::High, 5_000);
    finding::lemma_reported_within(part, old, none, Severity::High, 5_000);
    assert(part + old + none =~= part + old);
    lemma_part_is_reported(
        data,
        filename,
        autoexec::document_findings(data, ext),
        Severity::High,
        5_000,
    );
}

// ---------------------------------------------------------------------------
// Instructions
// ---------------------------------------------------------------------------

/// An `autorun.inf` is reported, in whatever folder it lies and however it is
/// spelled, and more so where it names a command.
pub proof fn law_an_autorun_file_is_reported(data: Seq<u8>, filename: Seq<char>)
    requires
        text::lowercase(text::base_name(filename)) == "autorun.inf"@,
    ensures
        ({
            let content = text::lowercase(
                text::utf8_lossy(
                    if data.len() < 8_192 {
                        data
                    } else {
                        data.take(8_192)
                    },
                ),
            );
            let all = autoexec::execution_findings(data, filename);
            let named = sequences::occurs(content, "open="@) || sequences::occurs(
                content,
                "shellexecute="@,
            );
            &&& named ==> finding::reports(all, Severity::High, 7_000)
            &&& !named ==> finding::reports(all, Severity::Medium, 4_500)
            &&& autoexec::runs_on_open(data, filename)
        }),
{
    let part = autoexec::autorun_findings(data, filename);
    finding::lemma_single_is_reported(part, part[0].severity, part[0].risk);
    lemma_part_is_reported(data, filename, part, part[0].severity, part[0].risk);
}

/// An archive that carries an `autorun.inf`, in whatever folder and however it
/// is spelled, is reported.
pub proof fn law_an_autorun_file_inside_is_reported(
    data: Seq<u8>,
    filename: Seq<char>,
    entries: Seq<EntryModel>,
    k: int,
)
    requires
        archive::archive_entries(data) == Some(entries),
        0 <= k < entries.len(),
        text::ascii_lowercase(text::base_name(entries[k].name)) == text::ascii_lowercase(
            "autorun.inf"@,
        ),
    ensures
        finding::reports(autoexec::execution_findings(data, filename), Severity::High, 7_000),
        autoexec::runs_on_open(data, filename),
{
    lemma_entry_is_found(entries, "autorun.inf"@, k);
    let part = autoexec::container_findings(data);
    finding::lemma_single_is_reported(part, Severity::High, 7_000);
    lemma_part_is_reported(data, filename, part, Severity::High, 7_000);
}

// ---------------------------------------------------------------------------
// Internet shortcuts
// ---------------------------------------------------------------------------

/// A setting is a key and a value with the first equals sign between them: the
/// key in lower case, and both without the white space around them.
pub proof fn law_a_setting_is_read(key: Seq<char>, value: Seq<char>)
    requires
        !key.contains('='),
        text::trimmed(key + seq!['='] + value) == key + seq!['='] + value,
    ensures
        autoexec::setting(key + seq!['='] + value) == Some(
            (text::lowercase(text::trimmed(key)), text::trimmed(value)),
        ),
{
    let line = key + seq!['='] + value;
    let i = key.len() as int;
    assert forall|j: int| 0 <= j < i implies line[j] != '=' by {
        assert(line[j] == key[j]);
        assert(key.contains(key[j]));
    }
    assert(line[i] == '=');
    text::lemma_first_index(line, '=', i);
    assert(line.take(i) =~= key);
    assert(line.subrange(i + 1, line.len() as int) =~= value);
}

/// What a setting of an internet shortcut gives away: a target that hands the
/// rest to a program is critical, one on another machine is high, and a remote
/// path for the icon or the directory is high as well. Ordinary targets give
/// nothing away.
pub proof fn law_settings_that_are_reported(key: Seq<char>, value: Seq<char>)
    ensures
        ({
            let all = autoexec::setting_findings(key, value);
            let lowered = text::lowercase(value);
            let scheme = sequences::begins_with(lowered, "javascript:"@) || sequences::begins_with(
                lowered,
                "vbscript:"@,
            ) || sequences::begins_with(lowered, "ms-msdt:"@) || sequences::begins_with(
                lowered,
                "search-ms:"@,
            );
            let remote = value.len() >= 2 && value[0] == '\\' && value[1] == '\\';
            let elsewhere = remote || sequences::begins_with(lowered, "file://"@);
            &&& key == "url"@ && scheme ==> finding::reports(all, Severity::Critical, 8_500)
            &&& key == "url"@ && !scheme && elsewhere ==> finding::reports(
                all,
                Severity::High,
                7_000,
            )
            &&& (key == "iconfile"@ || key == "workingdirectory"@) && remote ==> finding::reports(
                all,
                Severity::High,
                7_500,
            )
            &&& key == "url"@ && !scheme && !elsewhere ==> all.len() == 0
            &&& key != "url"@ && key != "iconfile"@ && key != "workingdirectory"@ ==> all.len() == 0
        }),
{
    let lowered = text::lowercase(value);
    let list = SCRIPT_SCHEMES@;
    assert(list.len() == 4);
    assert(list[0]@ == "javascript:"@ && list[1]@ == "vbscript:"@ && list[2]@ == "ms-msdt:"@
        && list[3]@ == "search-ms:"@);
    reveal_strlit("\\\\");
    reveal_strlit("url");
    reveal_strlit("iconfile");
    reveal_strlit("workingdirectory");
    assert(key == "url"@ ==> key != "iconfile"@ && key != "workingdirectory"@) by {
        assert("url"@.len() != "iconfile"@.len());
        assert("url"@.len() != "workingdirectory"@.len());
    }
    assert(autoexec::remote_path(value) <==> value.len() >= 2 && value[0] == '\\' && value[1]
        == '\\') by {
        if value.len() >= 2 {
            let two = value.subrange(0, 2);
            assert(two[0] == value[0] && two[1] == value[1]);
            if value[0] == '\\' && value[1] == '\\' {
                assert(two =~= "\\\\"@);
            }
        }
    }
    let a = if key == "url"@ {
        autoexec::target_findings(value, lowered, text::quoted(text::shortened(value, 300)))
    } else {
        Seq::empty()
    };
    let b = autoexec::leak_findings(key, value, text::quoted(text::shortened(value, 200)));
    let none = Seq::<FindingModel>::empty();
    assert(none + a + b =~= a + b);
    assert(a + b + none =~= a + b);
    if a.len() == 1 {
        finding::lemma_single_is_reported(a, a[0].severity, a[0].risk);
        finding::lemma_reported_within(none, a, b, a[0].severity, a[0].risk);
    }
    if b.len() == 1 {
        finding::lemma_single_is_reported(b, b[0].severity, b[0].risk);
        finding::lemma_reported_within(a, b, none, b[0].severity, b[0].risk);
    }
}

/// A line gives what all lines give.
proof fn lemma_line_is_reported(
    lines: Seq<Seq<char>>,
    i: int,
    severity: Severity,
    risk: int,
)
    requires
        0 <= i < lines.len(),
        finding::reports(autoexec::line_findings(lines[i]), severity, risk),
    ensures
        finding::reports(autoexec::lines_findings(lines), severity, risk),
    decreases lines.len(),
{
    let before = autoexec::lines_findings(lines.drop_last());
    let last = autoexec::line_findings(lines.last());
    let none = Seq::<FindingModel>::empty();
    if i == lines.len() - 1 {
        finding::lemma_reported_within(before, last, none, severity, risk);
        assert(before + last + none =~= before + last);
    } else {
        lemma_line_is_reported(lines.drop_last(), i, severity, risk);
        finding::lemma_reported_within(none, before, last, severity, risk);
        assert(none + before + last =~= before + last);
    }
}

/// Every line of an internet shortcut is looked at: whatever one of its settings
/// gives away is reported of the file.
pub proof fn law_every_line_of_a_shortcut_counts(
    data: Seq<u8>,
    filename: Seq<char>,
    i: int,
    key: Seq<char>,
    value: Seq<char>,
    severity: Severity,
    risk: int,
)
    requires
        text::tail_extension(filename) == "url"@ || text::tail_extension(filename) == "website"@,
        ({
            let lines = text::lines(
                text::utf8_lossy(
                    if data.len() < 65_536 {
                        data
                    } else {
                        data.take(65_536)
                    },
                ),
            );
            0 <= i < lines.len() && autoexec::setting(lines[i]) == Some((key, value))
        }),
        finding::reports(autoexec::setting_findings(key, value), severity, risk),
    ensures
        finding::reports(autoexec::execution_findings(data, filename), severity, risk),
        finding::worst_risk(autoexec::execution_findings(data, filename)) >= risk,
{
    let lines = text::lines(text::utf8_lossy(autoexec::front(data, 65_536)));
    lemma_line_is_reported(lines, i, severity, risk);
    lemma_part_is_reported(
        data,
        filename,
        autoexec::named_url_findings(data, text::tail_extension(filename)),
        severity,
        risk,
    );
}

/// Lines end at line feeds: the first line is what stands before the first of
/// them, without a carriage return, and what stands behind it are the others.
pub proof fn law_lines_end_at_line_feeds(line: Seq<char>, rest: Seq<char>)
    requires
        !line.contains('\n'),
    ensures
        text::lines(line + seq!['\n'] + rest) == seq![
            if line.len() > 0 && line.last() == '\r' {
                line.drop_last()
            } else {
                line
            },
        ] + text::lines(rest),
        line.len() > 0 ==> text::lines(line) == seq![line],
{
    let all = line + seq!['\n'] + rest;
    let i = line.len() as int;
    assert forall|j: int| 0 <= j < i implies all[j] != '\n' by {
        assert(all[j] == line[j]);
        assert(line.contains(line[j]));
    }
    assert(all[i] == '\n');
    text::lemma_first_index(all, '\n', i);
    assert(all.take(i) =~= line);
    assert(all.skip(i + 1) =~= rest);
}

/// Only the tools of the system count as such, and only the marks of concealment
/// and the icons of documents as those: what is found in a text stands in it.
pub proof fn law_what_is_found_in_a_command_stands_there(
    command: Seq<char>,
    list: Seq<&'static str>,
)
    ensures
        autoexec::first_fragment(command, list) matches Some(found) ==> sequences::occurs(
            command,
            found,
        ) && exists|k: int| 0 <= k < list.len() && (#[trigger] list[k])@ == found,
        (forall|k: int|
            0 <= k < EVASION_MARKERS@.len() ==> !sequences::occurs(
                command,
                (#[trigger] EVASION_MARKERS@[k]).0@,
            )) ==> autoexec::evasions(command, EVASION_MARKERS@.len()).len() == 0,
{
    if autoexec::first_fragment(command, list) is Some {
        let k = choose|k: int| autoexec::first_fragment_at(command, list, k);
        assert(list[k]@ == autoexec::first_fragment(command, list)->0);
    }
    if forall|k: int|
        0 <= k < EVASION_MARKERS@.len() ==> !sequences::occurs(
            command,
            (#[trigger] EVASION_MARKERS@[k]).0@,
        ) {
        lemma_no_evasion(command, EVASION_MARKERS@.len());
    }
}

} // verus!
