//! A report as the lines of text that a reader sees.
use crate::command::{ArgsView, Report, ReportView, TopoArgs};
use crate::scope::{
    dependency_views, dev_entry_views, entry_views, texts, DependencyEntry, DependencyView,
    DevDependencyEntry, DevEntryView, EntryView, PackageEntry,
};
use vstd::prelude::*;
use vstd::string::StringExecFns;

verus! {

/// The texts of `items` in a row, with `separator` between each two.
pub open spec fn joined(items: Seq<Seq<char>>, separator: Seq<char>) -> Seq<char>
    decreases items.len(),
{
    if items.len() == 0 {
        Seq::empty()
    } else if items.len() == 1 {
        items[0]
    } else {
        joined(items.drop_last(), separator) + separator + items.last()
    }
}

/// The mark of a workspace member, or of an external package.
pub open spec fn marker(in_workspace: bool) -> Seq<char> {
    if in_workspace {
        "📦"@
    } else {
        "📄"@
    }
}

/// The line that says what is listed, and in which order.
pub open spec fn heading(args: ArgsView) -> Seq<char> {
    match args.package {
        Some(root) => "Dependencies from '"@ + root + if args.reverse {
            "' in reverse topological order:"@
        } else {
            "' in topological order:"@
        },
        None => if args.reverse {
            "Workspace crates in reverse topological order:"@
        } else {
            "Workspace crates in topological order:"@
        },
    }
}

/// The lines above the entries: the heading, the excluded names if there
/// are any, and an empty line.
pub open spec fn header(args: ArgsView) -> Seq<Seq<char>> {
    if args.exclude.len() > 0 {
        seq![heading(args), "Excluding: "@ + joined(args.exclude, ", "@), Seq::empty()]
    } else {
        seq![heading(args), Seq::empty()]
    }
}

/// The first line of an entry: mark, name and version.
pub open spec fn title_line(entry: EntryView) -> Seq<char> {
    marker(entry.in_workspace) + " "@ + entry.name + " ("@ + entry.version + ")"@
}

/// A dependency in the line of dependencies: its name, with its mark
/// before it where external packages are shown too.
pub open spec fn dependency_text(all: bool) -> spec_fn(DependencyView) -> Seq<char> {
    |dependency: DependencyView|
        if all {
            marker(dependency.in_workspace) + " "@ + dependency.name
        } else {
            dependency.name
        }
}

/// The line of dependencies of an entry.
pub open spec fn dependency_line(entry: EntryView, all: bool) -> Seq<char> {
    "   └─ depends on: "@ + joined(entry.dependencies.map_values(dependency_text(all)), ", "@)
}

/// The lines of an entry: its title, its dependencies if it has any, and an
/// empty line.
pub open spec fn entry_lines(entry: EntryView, all: bool) -> Seq<Seq<char>> {
    if entry.dependencies.len() > 0 {
        seq![title_line(entry), dependency_line(entry, all), Seq::empty()]
    } else {
        seq![title_line(entry), Seq::empty()]
    }
}

/// The lines of all entries, one entry after the other.
pub open spec fn listing_lines(entries: Seq<EntryView>, all: bool) -> Seq<Seq<char>>
    decreases entries.len(),
{
    if entries.len() == 0 {
        Seq::empty()
    } else {
        listing_lines(entries.drop_last(), all) + entry_lines(entries.last(), all)
    }
}

/// The line of the summary for one package.
pub open spec fn dev_line() -> spec_fn(DevEntryView) -> Seq<char> {
    |entry: DevEntryView|
        "🧪 "@ + entry.name + " dev-dependencies: "@ + joined(entry.dev_dependencies, ", "@)
}

/// The lines of the summary of development-only dependencies: none where
/// there is no summary; else an empty line, a heading and a line for each
/// package.
pub open spec fn summary_lines(summary: Option<Seq<DevEntryView>>) -> Seq<Seq<char>> {
    match summary {
        Some(entries) => seq![Seq::empty(), "Dev-dependencies analysis:"@] + entries.map_values(
            dev_line(),
        ),
        None => Seq::empty(),
    }
}

/// The lines of a report. A compact report is its names and nothing else.
pub open spec fn rendered(report: ReportView, args: ArgsView) -> Seq<Seq<char>> {
    match report {
        ReportView::Compact(names) => names,
        ReportView::Listing { entries, dev_dependencies } => header(args) + listing_lines(
            entries,
            args.all,
        ) + summary_lines(dev_dependencies),
    }
}

/// The texts of `items` in a row, with `separator` between each two.
pub fn join(items: &Vec<String>, separator: &str) -> (text: String)
    ensures
        text@ == joined(texts(items@), separator@),
{
    let mut text = String::new();
    let mut i: usize = 0;
    while i < items.len()
        invariant
            i <= items.len(),
            text@ == joined(texts(items@).take(i as int), separator@),
        decreases items.len() - i,
    {
        proof {
            assert(texts(items@).take(i + 1).drop_last() =~= texts(items@).take(i as int));
        }
        if i > 0 {
            text.append(separator);
        }
        text.append(items[i].as_str());
        i += 1;
    }
    proof {
        assert(texts(items@).take(items@.len() as int) =~= texts(items@));
    }
    text
}

/// The mark of a workspace member, or of an external package.
fn marker_for(in_workspace: bool) -> (mark: &'static str)
    ensures
        mark@ == marker(in_workspace),
{
    if in_workspace {
        "📦"
    } else {
        "📄"
    }
}

/// The heading for the caller's choices.
fn heading_for(args: &TopoArgs) -> (line: String)
    ensures
        line@ == heading(args@),
{
    match &args.package {
        Some(root) => {
            let mut line = String::from_str("Dependencies from '");
            line.append(root.as_str());
            if args.reverse {
                line.append("' in reverse topological order:");
            } else {
                line.append("' in topological order:");
            }
            line
        },
        None => {
            if args.reverse {
                String::from_str("Workspace crates in reverse topological order:")
            } else {
                String::from_str("Workspace crates in topological order:")
            }
        },
    }
}

/// The title of an entry.
fn title_for(entry: &PackageEntry) -> (line: String)
    ensures
        line@ == title_line(entry@),
{
    let mut line = String::from_str(marker_for(entry.in_workspace));
    line.append(" ");
    line.append(entry.name.as_str());
    line.append(" (");
    line.append(entry.version.as_str());
    line.append(")");
    line
}

/// The dependencies of an entry as they stand in its line of dependencies.
fn dependency_texts_for(entry: &PackageEntry, all: bool) -> (list: Vec<String>)
    ensures
        texts(list@) == entry@.dependencies.map_values(dependency_text(all)),
{
    let mut list: Vec<String> = Vec::new();
    let mut i: usize = 0;
    while i < entry.dependencies.len()
        invariant
            i <= entry.dependencies.len(),
            list@.len() == i,
            forall|j: int|
                0 <= j < i ==> (#[trigger] list@[j])@ == dependency_text(all)(
                    entry@.dependencies[j],
                ),
        decreases entry.dependencies.len() - i,
    {
        let dependency = &entry.dependencies[i];
        let text = if all {
            let mut text = String::from_str(marker_for(dependency.in_workspace));
            text.append(" ");
            text.append(dependency.name.as_str());
            text
        } else {
            dependency.name.clone()
        };
        list.push(text);
        i += 1;
    }
    list
}

/// The lines of an entry.
fn lines_for(entry: &PackageEntry, all: bool) -> (lines: Vec<String>)
    ensures
        texts(lines@) == entry_lines(entry@, all),
{
    let mut lines: Vec<String> = Vec::new();
    lines.push(title_for(entry));
    if entry.dependencies.len() > 0 {
        let list = dependency_texts_for(entry, all);
        let mut line = String::from_str("   └─ depends on: ");
        line.append(join(&list, ", ").as_str());
        lines.push(line);
    }
    lines.push(String::new());
    lines
}

/// The line of the summary for one package.
fn dev_line_for(entry: &DevDependencyEntry) -> (line: String)
    ensures
        line@ == dev_line()(entry@),
{
    let mut line = String::from_str("🧪 ");
    line.append(entry.name.as_str());
    line.append(" dev-dependencies: ");
    line.append(join(&entry.dev_dependencies, ", ").as_str());
    line
}

/// Lays a report out as the lines of text to show, without line ends. A
/// listing starts with a heading made from the caller's choices; a compact
/// report is the bare names.
pub fn render(report: &Report, args: &TopoArgs) -> (lines: Vec<String>)
    ensures
        texts(lines@) == rendered(report@, args@),
{
    match report {
        Report::Compact(names) => names.clone(),
        Report::Listing { entries, dev_dependencies } => {
            let mut lines: Vec<String> = Vec::new();
            lines.push(heading_for(args));
            if args.exclude.len() > 0 {
                let mut line = String::from_str("Excluding: ");
                line.append(join(&args.exclude, ", ").as_str());
                lines.push(line);
            }
            lines.push(String::new());
            let mut i: usize = 0;
            while i < entries.len()
                invariant
                    i <= entries.len(),
                    texts(lines@) == header(args@) + listing_lines(
                        entry_views(entries@).take(i as int),
                        args.all,
                    ),
                decreases entries.len() - i,
            {
                let ghost before = lines@;
                let mut part = lines_for(&entries[i], args.all);
                let ghost added = part@;
                lines.append(&mut part);
                proof {
                    let views = entry_views(entries@);
                    assert(views.take(i + 1).drop_last() =~= views.take(i as int));
                    assert(texts(lines@) =~= texts(before) + texts(added));
                }
                i += 1;
            }
            proof {
                assert(entry_views(entries@).take(entries@.len() as int) =~= entry_views(
                    entries@,
                ));
            }
            match dev_dependencies {
                Some(summary) => {
                    let ghost above = lines@;
                    lines.push(String::new());
                    lines.push(String::from_str("Dev-dependencies analysis:"));
                    let mut j: usize = 0;
                    while j < summary.len()
                        invariant
                            j <= summary.len(),
                            lines@.len() == above.len() + 2 + j,
                            lines@.take(above.len() as int) == above,
                            lines@[above.len() as int]@ == Seq::<char>::empty(),
                            lines@[above.len() as int + 1]@ == "Dev-dependencies analysis:"@,
                            forall|k: int|
                                0 <= k < j ==> (#[trigger] lines@[above.len() as int + 2 + k])@
                                    == dev_line()(dev_entry_views(summary@)[k]),
                        decreases summary.len() - j,
                    {
                        let line = dev_line_for(&summary[j]);
                        lines.push(line);
                        j += 1;
                    }
                    proof {
                        let views = dev_entry_views(summary@);
                        let below = summary_lines(Some(views));
                        assert forall|k: int| 0 <= k < lines@.len() implies texts(lines@)[k] == (
                        texts(above) + below)[k] by {
                            if k >= above.len() + 2 {
                                let m = k - above.len() - 2;
                                assert(lines@[above.len() as int + 2 + m]@ == dev_line()(views[m]));
                            }
                        }
                    }
                },
                None => {},
            }
            lines
        },
    }
}

} // verus!
