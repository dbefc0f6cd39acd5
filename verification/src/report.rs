//! The two renderings of a root node: the flat report of `name=value` lines
//! and the summary table in Markdown.
//!
//! Only the root's own counts are rendered; its children are not looked at.
//! The percentage is a floating-point matter and comes in as text, formatted
//! by the caller.

use crate::node::{Node, NodeView};
use crate::numeral::{decimal, decimal_text, fmt_number, grouped};
use vstd::prelude::*;
use vstd::string::StringExecFns;

verus! {

/// One line of the flat report.
pub open spec fn name_value(name: Seq<char>, value: Seq<char>) -> Seq<char> {
    name + seq!['='] + value + seq!['\n']
}

/// The flat report of a root: four lines, in this order.
pub open spec fn output(root: NodeView, percent: Seq<char>) -> Seq<char> {
    name_value("lines_covered"@, decimal(root.lines_covered)) + name_value(
        "lines_missed"@,
        decimal(root.lines_missed),
    ) + name_value("lines_total"@, decimal(root.lines_total)) + name_value(
        "coverage_percent"@,
        percent,
    )
}

/// One row of the summary table.
pub open spec fn row(label: Seq<char>, value: Seq<char>) -> Seq<char> {
    "| "@ + label + ": | "@ + value + " |\n"@
}

/// The summary table of a root: the header with the title and the rounded
/// percentage, the separator, and one row for each count.
pub open spec fn summary(root: NodeView, title: Seq<char>, rounded: Seq<char>) -> Seq<char> {
    row(title, rounded + "%"@) + "|:---|:---|\n"@ + row(
        "Lines covered"@,
        grouped(root.lines_covered),
    ) + row("Lines missed"@, grouped(root.lines_missed)) + row(
        "Total lines"@,
        grouped(root.lines_total),
    )
}

/// `gha::append_name_value`, which writes the line `name=value` and a newline
/// to its sink. Here the sink is a buffer of bytes, which takes every write,
/// and the line goes on to the end of `out`.
#[verifier::external_body]
fn append_name_value(out: &mut String, name: &str, value: &str)
    ensures
        final(out)@ == old(out)@ + name_value(name@, value@),
{
    let mut line: Vec<u8> = Vec::new();
    let _ = gha::append_name_value(&mut line, name, value);
    out.push_str(&String::from_utf8_lossy(&line));
}

/// Appends the flat report of `root` to `out`. `percent` is the root's
/// percentage as text.
pub fn write_output(out: &mut String, root: &Node, percent: &str)
    ensures
        final(out)@ == old(out)@ + output(root@, percent@),
{
    append_name_value(out, "lines_covered", decimal_text(root.lines_covered).as_str());
    append_name_value(out, "lines_missed", decimal_text(root.lines_missed).as_str());
    append_name_value(out, "lines_total", decimal_text(root.lines_total).as_str());
    append_name_value(out, "coverage_percent", percent);
}

fn append_row(out: &mut String, label: &str, value: &str)
    ensures
        final(out)@ == old(out)@ + row(label@, value@),
{
    out.append("| ");
    out.append(label);
    out.append(": | ");
    out.append(value);
    out.append(" |\n");
}

/// Appends the summary table of `root` to `out`, under `title`. `rounded` is
/// the root's percentage, rounded to a whole number, as text.
pub fn write_summary(out: &mut String, root: &Node, title: &str, rounded: &str)
    ensures
        final(out)@ == old(out)@ + summary(root@, title@, rounded@),
{
    let mut percent = String::new();
    percent.append(rounded);
    percent.append("%");
    append_row(out, title, percent.as_str());
    out.append("|:---|:---|\n");
    append_row(out, "Lines covered", fmt_number(root.lines_covered).as_str());
    append_row(out, "Lines missed", fmt_number(root.lines_missed).as_str());
    append_row(out, "Total lines", fmt_number(root.lines_total).as_str());
}

} // verus!
