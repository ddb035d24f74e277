//! What the user is told and asked: the texts of the messages.

use crate::cleanup::{DeleteReport, DeleteReportModel};
use crate::text::{append_decimal, decimal, join_lines, join_range};
use vstd::prelude::*;

verus! {

/// The title of the messages about removing images.
pub const REMOVE_TITLE: &'static str = "Remove Images";

/// The title of the messages about renaming images.
pub const RENAME_TITLE: &'static str = "Rename Images";

/// What is said where no image is unused.
pub const NOTHING_TO_REMOVE: &'static str = "No images need to be removed!";

/// What is said where no image is used.
pub const NOTHING_TO_RENAME: &'static str = "No images need to be renamed!";

/// What a list is shown as: its lines joined, or, of more than ten lines,
/// the first five and the last five with a line of dots between them.
pub open spec fn description_of(lines: Seq<Seq<char>>) -> Seq<char> {
    if lines.len() > 10 {
        join_lines(lines.take(5)) + seq!['\n', '.', '.', '.', '\n'] + join_lines(
            lines.skip(lines.len() - 5),
        )
    } else {
        join_lines(lines)
    }
}

/// Writes a list as it is shown in a message.
pub fn describe(lines: &Vec<String>) -> (description: String)
    ensures
        description@ == description_of(lines.deep_view()),
{
    let n: usize = lines.len();
    let ghost all: Seq<Seq<char>> = lines.deep_view();
    if n > 10 {
        let mut description: String = join_range(lines, 0, 5);
        let tail: String = join_range(lines, n - 5, n);
        proof {
            reveal_strlit("\n...\n");
            assert("\n...\n"@ =~= seq!['\n', '.', '.', '.', '\n']);
            assert(all.subrange(0, 5) =~= all.take(5));
            assert(all.subrange(n - 5, n as int) =~= all.skip(n - 5));
        }
        description.append("\n...\n");
        description.append(tail.as_str());
        description
    } else {
        assert(all.subrange(0, n as int) =~= all);
        join_range(lines, 0, n)
    }
}

/// The question asked before `paths` are removed.
pub open spec fn remove_question_of(paths: Seq<Seq<char>>) -> Seq<char> {
    "Are you sure to remove these "@ + decimal(paths.len()) + " images?\n\n"@ + description_of(
        paths,
    )
}

/// Writes the question asked before `paths` are removed.
pub fn remove_question(paths: &Vec<String>) -> (text: String)
    ensures
        text@ == remove_question_of(paths.deep_view()),
{
    let mut text: String = String::from_str("Are you sure to remove these ");
    append_decimal(&mut text, paths.len());
    text.append(" images?\n\n");
    text.append(describe(paths).as_str());
    text
}

/// What is said after a removal: how many files were removed and which,
/// and, if some could not be removed, how many and which.
pub open spec fn removed_text_of(report: DeleteReportModel) -> Seq<char> {
    let done = "Remove "@ + decimal(report.count) + " images successfully!\n\n"@ + description_of(
        report.deleted,
    );
    if report.failures.len() > 0 {
        done + "\n\nFailed to remove "@ + decimal(report.failures.len()) + " images:\n\n"@
            + description_of(report.failures)
    } else {
        done
    }
}

/// Writes what is said after a removal.
pub fn removed_text(report: &DeleteReport) -> (text: String)
    ensures
        text@ == removed_text_of(report.deep_view()),
{
    let mut text: String = String::from_str("Remove ");
    append_decimal(&mut text, report.count);
    text.append(" images successfully!\n\n");
    text.append(describe(&report.deleted).as_str());
    if report.failures.len() > 0 {
        text.append("\n\nFailed to remove ");
        append_decimal(&mut text, report.failures.len());
        text.append(" images:\n\n");
        text.append(describe(&report.failures).as_str());
    }
    text
}

/// How a renaming is shown: the old name, an arrow, the new name.
pub open spec fn rename_line_of(renamed: (Seq<char>, Seq<char>)) -> Seq<char> {
    renamed.0 + " -> "@ + renamed.1
}

/// The lines that show the renamings of `mapping`, in order.
pub open spec fn rename_lines_of(mapping: Seq<(Seq<char>, Seq<char>)>) -> Seq<Seq<char>> {
    Seq::new(mapping.len(), |i: int| rename_line_of(mapping[i]))
}

/// Writes the lines that show the renamings of `mapping`.
pub fn rename_lines(mapping: &Vec<(String, String)>) -> (lines: Vec<String>)
    ensures
        lines.deep_view() == rename_lines_of(mapping.deep_view()),
{
    let mut lines: Vec<String> = Vec::new();
    let mut i: usize = 0;
    while i < mapping.len()
        invariant
            i <= mapping.len(),
            lines.len() == i,
            forall|j: int|
                0 <= j < i ==> (#[trigger] lines@[j])@ == rename_line_of(mapping.deep_view()[j]),
        decreases mapping.len() - i,
    {
        let mut line: String = mapping[i].0.clone();
        line.append(" -> ");
        line.append(mapping[i].1.as_str());
        lines.push(line);
        i += 1;
    }
    assert(lines.deep_view() =~= rename_lines_of(mapping.deep_view()));
    lines
}

/// The question asked before the renamings of `mapping` are made.
pub open spec fn rename_question_of(mapping: Seq<(Seq<char>, Seq<char>)>) -> Seq<char> {
    "Are you sure to rename these "@ + decimal(mapping.len()) + " images?\n\n"@ + description_of(
        rename_lines_of(mapping),
    )
}

/// Writes the question asked before the renamings of `mapping` are made.
pub fn rename_question(mapping: &Vec<(String, String)>) -> (text: String)
    ensures
        text@ == rename_question_of(mapping.deep_view()),
{
    let mut text: String = String::from_str("Are you sure to rename these ");
    append_decimal(&mut text, mapping.len());
    text.append(" images?\n\n");
    text.append(describe(&rename_lines(mapping)).as_str());
    text
}

/// What is said after the renamings of `mapping` are made and the new
/// document is written to `new_md_file_path`.
pub open spec fn renamed_text_of(
    mapping: Seq<(Seq<char>, Seq<char>)>,
    new_md_file_path: Seq<char>,
) -> Seq<char> {
    "Rename "@ + decimal(mapping.len()) + " images successfully!\n\n"@ + description_of(
        rename_lines_of(mapping),
    ) + "\n\nNew md file save to:\n"@ + new_md_file_path
}

/// Writes what is said after a renaming.
pub fn renamed_text(mapping: &Vec<(String, String)>, new_md_file_path: &str) -> (text: String)
    ensures
        text@ == renamed_text_of(mapping.deep_view(), new_md_file_path@),
{
    let mut text: String = String::from_str("Rename ");
    append_decimal(&mut text, mapping.len());
    text.append(" images successfully!\n\n");
    text.append(describe(&rename_lines(mapping)).as_str());
    text.append("\n\nNew md file save to:\n");
    text.append(new_md_file_path);
    text
}

} // verus!
