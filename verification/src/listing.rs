//! The presentation of tree entries as lines of text.

use crate::text::same_text;
use crate::tree::{TreeEntry, TreeEntryView};
use vstd::prelude::*;

verus! {

/// The line that presents `entry`: a subtree (mode `40000`) as
/// `040000 tree <sha> <name>`, a regular file (mode `100644`) as
/// `100644 blob <sha> <name>`, anything else as `<mode> <sha> <name>`.
pub open spec fn entry_line(entry: TreeEntryView) -> Seq<char> {
    if entry.mode == "40000"@ {
        "040000 tree "@ + entry.sha + " "@ + entry.name
    } else if entry.mode == "100644"@ {
        "100644 blob "@ + entry.sha + " "@ + entry.name
    } else {
        entry.mode + " "@ + entry.sha + " "@ + entry.name
    }
}

/// Formats the line that presents `entry`.
pub fn format_entry(entry: &TreeEntry) -> (line: String)
    ensures
        line@ == entry_line(entry@),
{
    let mut line = if same_text(entry.mode.as_str(), "40000") {
        String::from_str("040000 tree ")
    } else if same_text(entry.mode.as_str(), "100644") {
        String::from_str("100644 blob ")
    } else {
        let mut mode = entry.mode.clone();
        mode.append(" ");
        mode
    };
    line.append(entry.sha.as_str());
    line.append(" ");
    line.append(entry.name.as_str());
    line
}

/// The lines that present `entries`, one for each entry, in the same order.
pub fn tree_lines(entries: &[TreeEntry]) -> (lines: Vec<String>)
    ensures
        lines@.len() == entries@.len(),
        forall|i: int| 0 <= i < lines@.len() ==> (#[trigger] lines@[i])@ == entry_line(entries@[i]@),
{
    let mut lines: Vec<String> = Vec::new();
    let mut i: usize = 0;
    while i < entries.len()
        invariant
            i <= entries@.len(),
            lines@.len() == i,
            forall|k: int| 0 <= k < i ==> (#[trigger] lines@[k])@ == entry_line(entries@[k]@),
        decreases entries@.len() - i,
    {
        lines.push(format_entry(&entries[i]));
        i += 1;
    }
    lines
}

/// The names of `entries`, one for each entry, in the same order.
pub fn tree_names(entries: &[TreeEntry]) -> (names: Vec<String>)
    ensures
        names@.len() == entries@.len(),
        forall|i: int| 0 <= i < names@.len() ==> (#[trigger] names@[i])@ == entries@[i].name@,
{
    let mut names: Vec<String> = Vec::new();
    let mut i: usize = 0;
    while i < entries.len()
        invariant
            i <= entries@.len(),
            names@.len() == i,
            forall|k: int| 0 <= k < i ==> (#[trigger] names@[k])@ == entries@[k].name@,
        decreases entries@.len() - i,
    {
        names.push(entries[i].name.clone());
        i += 1;
    }
    names
}

} // verus!
