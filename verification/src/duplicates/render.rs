//! The report of a scan as text.

use super::report::{ScanModel, ScanResult};
use super::sets::{DupSet, DuplicateGroup};
use crate::text::{binary_size_text, decimal, format_size_binary, string_views, to_decimal};
use vstd::prelude::*;
use vstd::string::StringExecFns;

verus! {

/// The head of a report: its title, the number of duplicate sets, the number
/// of files in them, and the wasted space as it is to be shown.
pub open spec fn head_text(sets: nat, files: nat, wasted: Seq<char>) -> Seq<char> {
    "Duplicate File Report\n=====================\n\nTotal duplicate groups: "@ + decimal(sets)
        + "\nTotal duplicate files: "@ + decimal(files) + "\nTotal wasted space: "@ + wasted
        + "\n\n"@
}

/// The head of the report of a scan.
pub open spec fn report_header(model: ScanModel) -> Seq<char> {
    head_text(
        model.sets.len(),
        model.total_duplicate_files,
        binary_size_text(model.total_wasted),
    )
}

/// One line per path, each indented by two spaces.
pub open spec fn path_lines(paths: Seq<Seq<char>>) -> Seq<char>
    decreases paths.len(),
{
    if paths.len() == 0 {
        Seq::empty()
    } else {
        path_lines(paths.drop_last()) + "  "@ + paths.last() + "\n"@
    }
}

/// The part of a report on one duplicate set: its number, its size and
/// wasted space as they are to be shown, a rule, and its paths.
pub open spec fn section_text(
    number: nat,
    size: Seq<char>,
    wasted: Seq<char>,
    paths: Seq<Seq<char>>,
) -> Seq<char> {
    "\nGroup "@ + decimal(number) + " (size: "@ + size + ", wasted: "@ + wasted
        + ")\n------------------------------------------------------------:\n"@ + path_lines(
        paths,
    )
}

/// The part of the report on one duplicate set, numbered from 1.
pub open spec fn group_text(number: nat, set: DupSet) -> Seq<char> {
    section_text(
        number,
        binary_size_text(set.size as nat),
        binary_size_text(set.wasted),
        set.members,
    )
}

/// The parts of the report on all sets, in order.
pub open spec fn groups_text(sets: Seq<DupSet>) -> Seq<char>
    decreases sets.len(),
{
    if sets.len() == 0 {
        Seq::empty()
    } else {
        groups_text(sets.drop_last()) + group_text(sets.len(), sets.last())
    }
}

/// The report of a scan as text.
pub open spec fn report_text(model: ScanModel) -> Seq<char> {
    report_header(model) + groups_text(model.sets)
}

/// Writes one line for each path.
fn render_paths(paths: &Vec<String>) -> (text: String)
    ensures
        text@ == path_lines(string_views(paths@)),
{
    let ghost views = string_views(paths@);
    let mut text = String::new();
    let mut i: usize = 0;
    proof {
        assert(views.take(0) =~= Seq::<Seq<char>>::empty());
    }
    while i < paths.len()
        invariant
            i <= paths.len(),
            views == string_views(paths@),
            text@ == path_lines(views.take(i as int)),
        decreases paths.len() - i,
    {
        proof {
            assert(views.take(i as int + 1).drop_last() =~= views.take(i as int));
            assert(views.take(i as int + 1).last() == paths[i as int]@);
        }
        text.append("  ");
        text.append(paths[i].as_str());
        text.append("\n");
        i += 1;
    }
    proof {
        assert(views.take(i as int) =~= views);
    }
    text
}

/// Writes the head of a report from its numbers and the wasted space as it
/// is to be shown.
pub fn render_head(sets: u64, files: u64, wasted: &str) -> (text: String)
    ensures
        text@ == head_text(sets as nat, files as nat, wasted@),
{
    let mut text = String::from_str(
        "Duplicate File Report\n=====================\n\nTotal duplicate groups: ",
    );
    text.append(to_decimal(sets).as_str());
    text.append("\nTotal duplicate files: ");
    text.append(to_decimal(files).as_str());
    text.append("\nTotal wasted space: ");
    text.append(wasted);
    text.append("\n\n");
    text
}

/// Writes the part of a report on one duplicate set from its number, its
/// size and wasted space as they are to be shown, and its paths.
pub fn render_section(number: u64, size: &str, wasted: &str, paths: &Vec<String>) -> (text: String)
    ensures
        text@ == section_text(number as nat, size@, wasted@, string_views(paths@)),
{
    let mut text = String::from_str("\nGroup ");
    text.append(to_decimal(number).as_str());
    text.append(" (size: ");
    text.append(size);
    text.append(", wasted: ");
    text.append(wasted);
    text.append(")\n------------------------------------------------------------:\n");
    text.append(render_paths(paths).as_str());
    text
}

/// Writes the part of the report on one duplicate set.
fn render_group(number: u64, group: &DuplicateGroup) -> (text: String)
    ensures
        text@ == group_text(number as nat, group@),
{
    let size = format_size_binary(group.size);
    let wasted = format_size_binary(group.total_wasted);
    render_section(number, size.as_str(), wasted.as_str(), &group.files)
}

/// Writes the report of a scan as text: a head with the number of duplicate
/// sets, the number of files in them and the space they waste, then for each
/// set its number, size and wasted space and the paths of its files.
pub fn render_report(report: &ScanResult) -> (text: String)
    ensures
        text@ == report_text(report@),
{
    let ghost sets = report@.sets;
    let wasted = format_size_binary(report.total_wasted);
    let mut text = render_head(
        report.groups.len() as u64,
        report.total_duplicate_files as u64,
        wasted.as_str(),
    );
    let mut i: usize = 0;
    proof {
        assert(sets.take(0) =~= Seq::<DupSet>::empty());
        assert(text@ =~= report_header(report@) + groups_text(sets.take(0)));
    }
    while i < report.groups.len()
        invariant
            i <= report.groups.len(),
            sets == report@.sets,
            text@ == report_header(report@) + groups_text(sets.take(i as int)),
        decreases report.groups.len() - i,
    {
        proof {
            assert(sets.take(i as int + 1).drop_last() =~= sets.take(i as int));
            assert(sets.take(i as int + 1).last() == report.groups[i as int]@);
        }
        let part = render_group((i + 1) as u64, &report.groups[i]);
        text.append(part.as_str());
        proof {
            assert(text@ =~= report_header(report@) + groups_text(sets.take(i as int + 1)));
        }
        i += 1;
    }
    proof {
        assert(sets.take(i as int) =~= sets);
    }
    text
}

} // verus!
